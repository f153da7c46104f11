//! Structural statistics of a collection snapshot: deck names, per-deck
//! card counts sorted by name, and totals.

use std::collections::HashMap;
use vstd::prelude::*;
use crate::backup::{deck_stats_view, opt_text, BackupStats, DeckStats, DeckStatsView};

verus! {

broadcast use vstd::std_specs::hash::group_hash_axioms;

/// Why no deck names could be read.
#[derive(Clone, Copy, Debug, PartialEq, Eq, Structural)]
pub enum StatsError {
    /// Neither the deck table nor the legacy deck column could be read.
    DeckNamesUnavailable,
}

pub open spec fn decimal_digits() -> Seq<char> {
    seq!['0', '1', '2', '3', '4', '5', '6', '7', '8', '9']
}

/// Decimal digits of `n`, most significant first, without leading zeros.
pub open spec fn digits_text(n: nat) -> Seq<char>
    decreases n,
{
    if n < 10 {
        seq![decimal_digits()[n as int]]
    } else {
        digits_text(n / 10).push(decimal_digits()[(n % 10) as int])
    }
}

/// Decimal text of `n`, with a leading '-' when it is negative.
pub open spec fn decimal_text(n: int) -> Seq<char> {
    if n < 0 {
        seq!['-'] + digits_text((-n) as nat)
    } else {
        digits_text(n as nat)
    }
}

fn digits_string(n: u64) -> (r: String)
    ensures
        r@ == digits_text(n as nat),
    decreases n,
{
    let table = "0123456789";
    proof {
        reveal_strlit("0123456789");
    }
    assert(table@ =~= decimal_digits());
    if n < 10 {
        let d = table.substring_char(n as usize, n as usize + 1);
        assert(d@ =~= seq![decimal_digits()[n as int]]);
        d.to_owned()
    } else {
        let mut head = digits_string(n / 10);
        let d = table.substring_char((n % 10) as usize, (n % 10) as usize + 1);
        assert(d@ =~= seq![decimal_digits()[(n % 10) as int]]);
        head.append(d);
        assert(head@ =~= digits_text(n as nat));
        head
    }
}

/// Decimal text of `n`.
pub fn decimal_string(n: i64) -> (r: String)
    ensures
        r@ == decimal_text(n as int),
{
    if n < 0 {
        let magnitude = (0i128 - n as i128) as u64;
        let digits = digits_string(magnitude);
        let minus = "-";
        proof {
            reveal_strlit("-");
        }
        assert(minus@ =~= seq!['-']);
        let mut out = minus.to_owned();
        out.append(digits.as_str());
        out
    } else {
        digits_string(n as u64)
    }
}

/// `a` sorts strictly before `b` by character code (the order of UTF-8 bytes).
pub open spec fn text_lt(a: Seq<char>, b: Seq<char>) -> bool
    decreases a.len(),
{
    if b.len() == 0 {
        false
    } else if a.len() == 0 {
        true
    } else if a[0] != b[0] {
        (a[0] as u32) < (b[0] as u32)
    } else {
        text_lt(a.drop_first(), b.drop_first())
    }
}

fn text_less(a: &String, b: &String) -> (r: bool)
    ensures
        r == text_lt(a@, b@),
{
    let na = a.unicode_len();
    let nb = b.unicode_len();
    let mut i: usize = 0;
    proof {
        lemma_subrange_all(a@);
        lemma_subrange_all(b@);
    }
    while i < na && i < nb
        invariant
            na == a@.len(),
            nb == b@.len(),
            0 <= i <= na,
            i <= nb,
            text_lt(a@, b@) == text_lt(a@.subrange(i as int, na as int), b@.subrange(i as int, nb as int)),
        decreases na - i,
    {
        let x = a.get_char(i);
        let y = b.get_char(i);
        let ghost sa = a@.subrange(i as int, na as int);
        let ghost sb = b@.subrange(i as int, nb as int);
        assert(sa[0] == x && sb[0] == y);
        if x != y {
            return (x as u32) < (y as u32);
        }
        assert(sa.drop_first() =~= a@.subrange(i + 1, na as int));
        assert(sb.drop_first() =~= b@.subrange(i + 1, nb as int));
        i = i + 1;
    }
    i < nb
}

proof fn lemma_subrange_all<A>(s: Seq<A>)
    ensures
        s.subrange(0, s.len() as int) == s,
{
    assert(s.subrange(0, s.len() as int) =~= s);
}

/// Where a deck goes among decks already sorted by name: after every deck
/// whose name does not sort after it, so equal names keep their order.
pub open spec fn name_insert_index(s: Seq<DeckStatsView>, d: DeckStatsView) -> int
    decreases s.len(),
{
    if s.len() == 0 {
        0
    } else if text_lt(d.deck_name, s[0].deck_name) {
        0
    } else {
        1 + name_insert_index(s.drop_first(), d)
    }
}

/// The decks sorted by name, stably: equal names keep their order.
pub open spec fn sorted_by_name(s: Seq<DeckStatsView>) -> Seq<DeckStatsView>
    decreases s.len(),
{
    if s.len() == 0 {
        s
    } else {
        let t = sorted_by_name(s.drop_last());
        t.insert(name_insert_index(t, s.last()), s.last())
    }
}

proof fn lemma_name_insert_index_bounds(s: Seq<DeckStatsView>, d: DeckStatsView)
    ensures
        0 <= name_insert_index(s, d) <= s.len(),
    decreases s.len(),
{
    if s.len() > 0 && !text_lt(d.deck_name, s[0].deck_name) {
        lemma_name_insert_index_bounds(s.drop_first(), d);
    }
}

proof fn lemma_sorted_len(s: Seq<DeckStatsView>)
    ensures
        sorted_by_name(s).len() == s.len(),
    decreases s.len(),
{
    if s.len() > 0 {
        lemma_sorted_len(s.drop_last());
        lemma_name_insert_index_bounds(sorted_by_name(s.drop_last()), s.last());
    }
}

/// No deck sorts before an earlier one by name.
pub open spec fn names_sorted(s: Seq<DeckStatsView>) -> bool {
    forall|i: int, j: int| 0 <= i < j < s.len() ==> !text_lt(#[trigger] s[j].deck_name, #[trigger] s[i].deck_name)
}

proof fn lemma_text_lt_irreflexive(a: Seq<char>)
    ensures
        !text_lt(a, a),
    decreases a.len(),
{
    if a.len() > 0 {
        lemma_text_lt_irreflexive(a.drop_first());
    }
}

proof fn lemma_text_lt_transitive(a: Seq<char>, b: Seq<char>, c: Seq<char>)
    requires
        text_lt(a, b),
        text_lt(b, c),
    ensures
        text_lt(a, c),
    decreases a.len(),
{
    if a.len() > 0 && a[0] == b[0] && b[0] == c[0] {
        lemma_text_lt_transitive(a.drop_first(), b.drop_first(), c.drop_first());
    }
}

proof fn lemma_name_insert_index(s: Seq<DeckStatsView>, d: DeckStatsView)
    ensures
        0 <= name_insert_index(s, d) <= s.len(),
        forall|j: int| 0 <= j < name_insert_index(s, d) ==> !text_lt(d.deck_name, #[trigger] s[j].deck_name),
        name_insert_index(s, d) < s.len() ==> text_lt(d.deck_name, s[name_insert_index(s, d)].deck_name),
    decreases s.len(),
{
    if s.len() > 0 && !text_lt(d.deck_name, s[0].deck_name) {
        lemma_name_insert_index(s.drop_first(), d);
        assert forall|j: int| 0 <= j < name_insert_index(s, d) implies !text_lt(d.deck_name, #[trigger] s[j].deck_name) by {
            if j > 0 {
                assert(s[j] == s.drop_first()[j - 1]);
            }
        }
    }
}

proof fn lemma_name_insert_keeps_sorted(s: Seq<DeckStatsView>, d: DeckStatsView)
    requires
        names_sorted(s),
    ensures
        names_sorted(s.insert(name_insert_index(s, d), d)),
{
    lemma_name_insert_index(s, d);
    let p = name_insert_index(s, d);
    let r = s.insert(p, d);
    assert forall|i: int, j: int| 0 <= i < j < r.len() implies !text_lt(#[trigger] r[j].deck_name, #[trigger] r[i].deck_name) by {
        if i < p && j < p {
            assert(r[i] == s[i] && r[j] == s[j]);
        } else if i < p && j == p {
            assert(r[i] == s[i] && r[j] == d);
        } else if i < p {
            assert(r[i] == s[i] && r[j] == s[j - 1]);
        } else if i == p {
            assert(r[i] == d && r[j] == s[j - 1]);
            if text_lt(s[j - 1].deck_name, d.deck_name) {
                lemma_text_lt_transitive(s[j - 1].deck_name, d.deck_name, s[p].deck_name);
                if j - 1 == p {
                    lemma_text_lt_irreflexive(s[p].deck_name);
                }
            }
        } else {
            assert(r[i] == s[i - 1] && r[j] == s[j - 1]);
        }
    }
}

proof fn lemma_sorted_by_name_sorted(s: Seq<DeckStatsView>)
    ensures
        names_sorted(sorted_by_name(s)),
    decreases s.len(),
{
    if s.len() > 0 {
        lemma_sorted_by_name_sorted(s.drop_last());
        lemma_name_insert_keeps_sorted(sorted_by_name(s.drop_last()), s.last());
    }
}

pub open spec fn deck_text() -> Seq<char> {
    seq!['D', 'e', 'c', 'k', ' ']
}

/// The name shown for deck `did`: its recorded name, else "Deck <did>".
pub open spec fn shown_deck_name(names: Map<i64, Seq<char>>, did: i64) -> Seq<char> {
    if names.contains_key(did) {
        names[did]
    } else {
        deck_text() + decimal_text(did as int)
    }
}

/// The per-deck statistics, in the order of `per_deck`, before sorting.
pub open spec fn unsorted_deck_stats(names: Map<i64, Seq<char>>, per_deck: Seq<(i64, i64)>) -> Seq<DeckStatsView> {
    Seq::new(
        per_deck.len(),
        |i: int| DeckStatsView { deck_id: per_deck[i].0, deck_name: shown_deck_name(names, per_deck[i].0), card_count: per_deck[i].1 },
    )
}

/// Deck names with their texts.
pub open spec fn names_view(names: Map<i64, String>) -> Map<i64, Seq<char>> {
    names.map_values(|n: String| n@)
}

fn lookup_deck_name(names: &HashMap<i64, String>, did: i64) -> (r: String)
    ensures
        r@ == shown_deck_name(names_view(names@), did),
{
    match names.get(&did) {
        Some(n) => n.clone(),
        None => {
            let prefix = "Deck ";
            proof {
                reveal_strlit("Deck ");
            }
            assert(prefix@ =~= deck_text());
            let mut out = prefix.to_owned();
            let digits = decimal_string(did);
            out.append(digits.as_str());
            out
        },
    }
}

fn name_position(v: &Vec<DeckStats>, d: &DeckStats) -> (r: usize)
    ensures
        r == name_insert_index(deck_stats_view(v@), d@),
{
    let ghost s = deck_stats_view(v@);
    let n = v.len();
    let mut i: usize = 0;
    proof {
        lemma_subrange_all(s);
    }
    while i < n
        invariant
            n == v@.len(),
            s == deck_stats_view(v@),
            0 <= i <= n,
            name_insert_index(s, d@) == i + name_insert_index(s.subrange(i as int, n as int), d@),
        decreases n - i,
    {
        let ghost sub = s.subrange(i as int, n as int);
        assert(sub[0] == s[i as int]);
        if text_less(&d.deck_name, &v[i].deck_name) {
            return i;
        }
        assert(sub.drop_first() =~= s.subrange(i + 1, n as int));
        i = i + 1;
    }
    i
}

fn insert_by_name(v: &mut Vec<DeckStats>, d: DeckStats)
    ensures
        deck_stats_view(final(v)@) == deck_stats_view(old(v)@).insert(name_insert_index(deck_stats_view(old(v)@), d@), d@),
{
    let i = name_position(v, &d);
    proof {
        lemma_name_insert_index_bounds(deck_stats_view(v@), d@);
    }
    let ghost dv = d@;
    let ghost old_vec = v@;
    v.insert(i, d);
    assert(deck_stats_view(v@) =~= deck_stats_view(old_vec).insert(i as int, dv));
}

/// Builds the statistics of a snapshot from the row counts of its card,
/// note and revlog tables, its deck names, and its (deck id, card count)
/// pairs. Decks without a recorded name are shown as "Deck <id>"; the
/// per-deck list is sorted by name, stably; `total_decks` is the number of
/// named decks.
pub fn assemble_stats(
    total_cards: i64,
    total_notes: i64,
    total_revlog: i64,
    deck_names: &HashMap<i64, String>,
    per_deck: &Vec<(i64, i64)>,
) -> (r: BackupStats)
    requires
        deck_names@.len() <= i64::MAX,
    ensures
        r@.total_cards == total_cards,
        r@.total_notes == total_notes,
        r@.total_revlog == total_revlog,
        r@.total_decks == deck_names@.len(),
        r@.deck_stats == sorted_by_name(unsorted_deck_stats(names_view(deck_names@), per_deck@)),
        r@.deck_stats.len() == per_deck@.len(),
        names_sorted(r@.deck_stats),
{
    let ghost names = names_view(deck_names@);
    let ghost all = unsorted_deck_stats(names, per_deck@);
    let n = per_deck.len();
    let mut out: Vec<DeckStats> = Vec::new();
    let mut i: usize = 0;
    assert(all.subrange(0, 0) =~= Seq::<DeckStatsView>::empty());
    assert(deck_stats_view(out@) =~= Seq::<DeckStatsView>::empty());
    while i < n
        invariant
            n == per_deck@.len(),
            names == names_view(deck_names@),
            all == unsorted_deck_stats(names, per_deck@),
            0 <= i <= n,
            deck_stats_view(out@) == sorted_by_name(all.subrange(0, i as int)),
        decreases n - i,
    {
        let (did, count) = per_deck[i];
        let name = lookup_deck_name(deck_names, did);
        let d = DeckStats { deck_id: did, deck_name: name, card_count: count };
        assert(d@ == all[i as int]);
        let ghost pre = all.subrange(0, i + 1);
        assert(pre.drop_last() =~= all.subrange(0, i as int));
        insert_by_name(&mut out, d);
        i = i + 1;
    }
    proof {
        lemma_subrange_all(all);
        lemma_sorted_len(all);
        lemma_sorted_by_name_sorted(all);
    }
    BackupStats {
        total_cards,
        total_decks: deck_names.len() as i64,
        total_notes,
        total_revlog,
        deck_stats: out,
    }
}

pub open spec fn is_digit(c: char) -> bool {
    48 <= (c as u32) && (c as u32) <= 57
}

/// The value of a text of decimal digits.
pub open spec fn digits_value(s: Seq<char>) -> int
    decreases s.len(),
{
    if s.len() == 0 {
        0
    } else {
        digits_value(s.drop_last()) * 10 + ((s.last() as u32) as int - 48)
    }
}

/// The text after an optional leading sign.
pub open spec fn unsigned_part(s: Seq<char>) -> Seq<char> {
    if s.len() > 0 && (s[0] == '-' || s[0] == '+') {
        s.drop_first()
    } else {
        s
    }
}

/// The `i64` that a text denotes: an optional '+' or '-', then one or more
/// decimal digits, with a value in range; `None` for any other text.
pub open spec fn parse_i64_text(s: Seq<char>) -> Option<i64> {
    let body = unsigned_part(s);
    let v = if s.len() > 0 && s[0] == '-' {
        -digits_value(body)
    } else {
        digits_value(body)
    };
    if body.len() > 0 && (forall|i: int| 0 <= i < body.len() ==> is_digit(#[trigger] body[i])) && i64::MIN <= v
        <= i64::MAX {
        Some(v as i64)
    } else {
        None
    }
}

proof fn lemma_non_digit_rejected(s: Seq<char>, k: int)
    requires
        0 <= k < unsigned_part(s).len(),
        !is_digit(unsigned_part(s)[k]),
    ensures
        parse_i64_text(s) is None,
{
    let body = unsigned_part(s);
    assert(!(forall|i: int| 0 <= i < body.len() ==> is_digit(#[trigger] body[i])));
}

/// Reads a decimal `i64`, as `str::parse::<i64>` does.
pub fn parse_i64(s: &String) -> (r: Option<i64>)
    ensures
        r == parse_i64_text(s@),
{
    let n = s.unicode_len();
    if n == 0 {
        return None;
    }
    let first = s.get_char(0);
    let neg = first == '-';
    let start: usize = if first == '-' || first == '+' {
        1
    } else {
        0
    };
    let ghost body = unsigned_part(s@);
    assert(body =~= s@.subrange(start as int, n as int));
    if start == n {
        return None;
    }
    let limit: u128 = 9223372036854775808;
    let mut acc: u128 = 0;
    let mut big = false;
    let mut i: usize = start;
    assert(s@.subrange(start as int, start as int) =~= Seq::<char>::empty());
    while i < n
        invariant
            n == s@.len(),
            start <= i <= n,
            body == s@.subrange(start as int, n as int),
            body == unsigned_part(s@),
            limit == 9223372036854775808,
            forall|j: int| start <= j < i ==> is_digit(#[trigger] s@[j]),
            !big ==> acc == digits_value(s@.subrange(start as int, i as int)) && acc <= limit,
            big ==> digits_value(s@.subrange(start as int, i as int)) > limit,
        decreases n - i,
    {
        let c = s.get_char(i);
        let code = c as u32;
        if !(48 <= code && code <= 57) {
            proof {
                assert(body[i - start] == c);
                lemma_non_digit_rejected(s@, i - start);
            }
            return None;
        }
        let ghost pre = s@.subrange(start as int, i + 1);
        assert(pre.drop_last() =~= s@.subrange(start as int, i as int));
        assert(pre.last() == c);
        let d = (code - 48) as u128;
        if !big {
            acc = acc * 10 + d;
            if acc > limit {
                big = true;
            }
        }
        i = i + 1;
    }
    assert(s@.subrange(start as int, n as int) == body);
    assert forall|j: int| 0 <= j < body.len() implies is_digit(#[trigger] body[j]) by {
        assert(body[j] == s@[start + j]);
    }
    if big {
        return None;
    }
    if neg {
        let v = 0i128 - acc as i128;
        Some(v as i64)
    } else if acc <= 9223372036854775807 {
        Some(acc as i64)
    } else {
        None
    }
}

/// The members of a JSON object, in the parser's member order: each key,
/// with the member's "name" when that is a string; `None` when the text is
/// not a JSON object.
pub uninterp spec fn json_deck_members_of(raw: Seq<char>) -> Option<Seq<(Seq<char>, Option<Seq<char>>)>>;

pub open spec fn members_view(v: Seq<(String, Option<String>)>) -> Seq<(Seq<char>, Option<Seq<char>>)> {
    v.map_values(|p: (String, Option<String>)| (p.0@, opt_text(p.1)))
}

/// Relies on serde_json::from_str::<Value> with Value::as_object, Value::get
/// and Value::as_str: parses the text as JSON and, when it is an object,
/// lists each member's key with its "name" member when that is a string.
#[verifier::external_body]
fn json_deck_members(raw: &str) -> (r: Option<Vec<(String, Option<String>)>>)
    ensures
        match r {
            Some(v) => json_deck_members_of(raw@) == Some(members_view(v@)),
            None => json_deck_members_of(raw@) is None,
        },
{
    let value: serde_json::Value = match serde_json::from_str(raw) {
        Ok(v) => v,
        Err(_) => return None,
    };
    let obj = value.as_object()?;
    Some(obj.iter().map(|(k, d)| (k.clone(), d.get("name").and_then(|n| n.as_str()).map(|n| n.to_string()))).collect())
}

/// The deck names that JSON object members give: members whose key is a
/// decimal id and that have a string name, later members replacing earlier
/// ones for the same id.
pub open spec fn deck_names_from_members(m: Seq<(Seq<char>, Option<Seq<char>>)>) -> Map<i64, Seq<char>>
    decreases m.len(),
{
    if m.len() == 0 {
        Map::empty()
    } else {
        let rest = deck_names_from_members(m.drop_last());
        match (parse_i64_text(m.last().0), m.last().1) {
            (Some(id), Some(name)) => rest.insert(id, name),
            _ => rest,
        }
    }
}

/// Reads deck names from the legacy JSON deck column: an object keyed by
/// deck id whose members carry a "name". Members whose key is not a decimal
/// id or that have no string name are passed over. Fails when the text is
/// not a JSON object.
pub fn parse_deck_names(raw: &str) -> (r: Result<HashMap<i64, String>, StatsError>)
    ensures
        match r {
            Ok(v) => json_deck_members_of(raw@) matches Some(m) && names_view(v@) == deck_names_from_members(m),
            Err(_) => json_deck_members_of(raw@) is None,
        },
{
    let members = match json_deck_members(raw) {
        Some(m) => m,
        None => {
            return Err(StatsError::DeckNamesUnavailable);
        },
    };
    let ghost m = members_view(members@);
    let n = members.len();
    let mut out: HashMap<i64, String> = HashMap::new();
    let mut i: usize = 0;
    assert(m.subrange(0, 0) =~= Seq::<(Seq<char>, Option<Seq<char>>)>::empty());
    assert(names_view(out@) =~= Map::<i64, Seq<char>>::empty());
    while i < n
        invariant
            n == members@.len(),
            m == members_view(members@),
            0 <= i <= n,
            names_view(out@) == deck_names_from_members(m.subrange(0, i as int)),
        decreases n - i,
    {
        let ghost pre = m.subrange(0, i + 1);
        assert(pre.drop_last() =~= m.subrange(0, i as int));
        assert(pre.last() == m[i as int]);
        let id = parse_i64(&members[i].0);
        match (id, &members[i].1) {
            (Some(id), Some(name)) => {
                let ghost before = out@;
                let text = name.clone();
                let ghost t = text@;
                out.insert(id, text);
                assert(names_view(out@) =~= names_view(before).insert(id, t));
            },
            _ => {},
        }
        i = i + 1;
    }
    proof {
        lemma_subrange_all(m);
    }
    Ok(out)
}

/// The deck names of a collection: those of the deck table when it could be
/// read, else those of the legacy JSON deck column; fails only when neither
/// source gives names.
pub fn resolve_deck_names(
    deck_table: Option<HashMap<i64, String>>,
    legacy_decks_json: Option<String>,
) -> (r: Result<HashMap<i64, String>, StatsError>)
    ensures
        match deck_table {
            Some(t) => r matches Ok(v) && names_view(v@) == names_view(t@),
            None => match legacy_decks_json {
                Some(j) => match json_deck_members_of(j@) {
                    Some(m) => r matches Ok(v) && names_view(v@) == deck_names_from_members(m),
                    None => r is Err,
                },
                None => r is Err,
            },
        },
{
    match deck_table {
        Some(t) => Ok(t),
        None => match legacy_decks_json {
            Some(j) => parse_deck_names(j.as_str()),
            None => Err(StatsError::DeckNamesUnavailable),
        },
    }
}

} // verus!
