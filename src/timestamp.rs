//! Snapshot directory names derived from an instant.

use vstd::prelude::*;
use crate::backup::opt_text;

verus! {

/// The RFC 3339 text of a Unix time in whole seconds, with `Z` for UTC, or
/// `None` where the instant is outside the calendar's range.
pub uninterp spec fn rfc3339_secs_of(secs: i64) -> Option<Seq<char>>;

/// Characters that RFC 3339 text at seconds precision is made of.
pub open spec fn is_rfc3339_char(c: char) -> bool {
    ||| ('0' <= c && c <= '9')
    ||| c == '-'
    ||| c == '+'
    ||| c == ':'
    ||| c == 'T'
    ||| c == 'Z'
}

/// The instant lies in a year from 0 to 9999 (UTC).
pub open spec fn in_four_digit_years(secs: i64) -> bool {
    -62167219200 <= secs && secs <= 253402300799
}

pub open spec fn is_ascii_digit(c: char) -> bool {
    '0' <= c && c <= '9'
}

/// "YYYY-MM-DDTHH:MM:SSZ": twenty characters, digits but for the fixed
/// separators.
pub open spec fn fixed_layout(t: Seq<char>) -> bool {
    &&& t.len() == 20
    &&& forall|i: int|
        0 <= i < 20 ==> {
            let c = #[trigger] t[i];
            if i == 4 || i == 7 {
                c == '-'
            } else if i == 10 {
                c == 'T'
            } else if i == 13 || i == 16 {
                c == ':'
            } else if i == 19 {
                c == 'Z'
            } else {
                is_ascii_digit(c)
            }
        }
}

/// `a` sorts strictly before `b`, character by character.
pub open spec fn text_before(a: Seq<char>, b: Seq<char>) -> bool {
    exists|k: int|
        0 <= k < a.len() && k < b.len() && a.subrange(0, k) == b.subrange(0, k) && (#[trigger] a[k] as u32) < (b[k] as u32)
}

/// Relies on chrono::DateTime::<Utc>::from_timestamp, which gives `None`
/// outside chrono's range, and DateTime::to_rfc3339_opts with
/// SecondsFormat::Secs and `Z`, which writes the year (signed outside
/// 0..=9999), month, day, 'T', hour, minute, second and 'Z': so digits,
/// '-', '+', ':', 'T' and 'Z' only, ending in "HH:MM:SSZ" with no other
/// colon, and distinct texts for distinct seconds. For years 0 to 9999 the
/// instant is in range and the year is written with four digits, so the
/// text has the fixed layout "YYYY-MM-DDTHH:MM:SSZ" and later instants
/// give texts that sort later.
#[verifier::external_body]
fn rfc3339_seconds(secs: i64) -> (r: Option<String>)
    ensures
        opt_text(r) == rfc3339_secs_of(secs),
        r matches Some(t) ==> t@.len() >= 9,
        r matches Some(t) ==> forall|i: int|
            0 <= i < t@.len() ==> (#[trigger] t@[i] == ':' <==> (i == t@.len() - 7 || i == t@.len() - 4)),
        r matches Some(t) ==> forall|i: int| 0 <= i < t@.len() ==> is_rfc3339_char(#[trigger] t@[i]),
        r matches Some(t) ==> forall|other: i64| #[trigger] rfc3339_secs_of(other) == Some(t@) ==> other == secs,
        r matches Some(t) ==> (in_four_digit_years(secs) ==> fixed_layout(t@)),
        r is Some || !in_four_digit_years(secs),
        r matches Some(t) ==> (in_four_digit_years(secs) ==> forall|other: i64|
            in_four_digit_years(other) && other < secs ==> (#[trigger] rfc3339_secs_of(other) matches Some(u) && fixed_layout(u)
                && text_before(u, t@))),
{
    match chrono::DateTime::from_timestamp(secs, 0) {
        Some(d) => Some(d.to_rfc3339_opts(chrono::SecondsFormat::Secs, true)),
        None => None,
    }
}

/// `s` with every ':' replaced by '-'.
pub open spec fn replace_colons(s: Seq<char>) -> Seq<char> {
    Seq::new(s.len(), |i: int| if s[i] == ':' { '-' } else { s[i] })
}

/// The directory name of a snapshot taken at `secs`.
pub open spec fn timestamp_dir_of(secs: i64) -> Option<Seq<char>> {
    match rfc3339_secs_of(secs) {
        Some(t) => Some(replace_colons(t)),
        None => None,
    }
}

/// A name that can stand as one path component without escaping: not
/// empty, no colon, no separator, no dot (so neither "." nor "..").
pub open spec fn is_path_safe(s: Seq<char>) -> bool {
    &&& s.len() > 0
    &&& forall|i: int|
        0 <= i < s.len() ==> {
            let c = #[trigger] s[i];
            &&& c != ':'
            &&& c != '/'
            &&& c != '\\'
            &&& c != '.'
        }
}

/// Puts back the two colons of "HH:MM:SSZ" at the end of a directory name.
pub open spec fn restore_colons(d: Seq<char>) -> Seq<char> {
    Seq::new(d.len(), |i: int| if i == d.len() - 7 || i == d.len() - 4 { ':' } else { d[i] })
}

/// Replacing the colons keeps the order of two texts of the fixed layout.
proof fn lemma_replace_keeps_order(u: Seq<char>, t: Seq<char>)
    requires
        fixed_layout(u),
        fixed_layout(t),
        text_before(u, t),
    ensures
        text_before(replace_colons(u), replace_colons(t)),
{
    let k = choose|k: int|
        0 <= k < u.len() && k < t.len() && u.subrange(0, k) == t.subrange(0, k) && (#[trigger] u[k] as u32) < (t[k] as u32);
    let ru = replace_colons(u);
    let rt = replace_colons(t);
    assert(u[k] != t[k]);
    assert(u[k] != ':' && t[k] != ':') by {
        if k == 4 || k == 7 || k == 10 || k == 13 || k == 16 || k == 19 {
            assert(u[k] == t[k]);
        }
    }
    assert forall|j: int| 0 <= j < k implies ru[j] == rt[j] by {
        assert(u.subrange(0, k)[j] == t.subrange(0, k)[j]);
    }
    assert(ru.subrange(0, k) =~= rt.subrange(0, k));
    assert(ru[k] == u[k] && rt[k] == t[k]);
    assert((ru[k] as u32) < (rt[k] as u32));
}

/// The path-safe UTC timestamp, at seconds precision, naming the snapshot
/// directory of a run at `now` (Unix seconds): RFC 3339 with colons made
/// dashes. `None` where the instant is outside the calendar's range.
pub fn format_timestamp_dir(now: i64) -> (r: Option<String>)
    ensures
        opt_text(r) == timestamp_dir_of(now),
        r matches Some(d) ==> is_path_safe(d@),
        r matches Some(d) ==> rfc3339_secs_of(now) == Some(restore_colons(d@)),
        r matches Some(d) ==> forall|other: i64|
            #[trigger] rfc3339_secs_of(other) == Some(restore_colons(d@)) ==> other == now,
        in_four_digit_years(now) ==> (r matches Some(d) && d@.len() == 20 && forall|i: int|
            0 <= i < d@.len() ==> (is_ascii_digit(#[trigger] d@[i]) || d@[i] == '-' || d@[i] == 'T' || d@[i] == 'Z')),
        in_four_digit_years(now) ==> (r matches Some(d) && forall|other: i64|
            in_four_digit_years(other) && other < now ==> (#[trigger] timestamp_dir_of(other) matches Some(e) && text_before(e, d@))),
{
    let text = match rfc3339_seconds(now) {
        Some(t) => t,
        None => {
            return None;
        },
    };
    let n = text.unicode_len();
    let mut out = String::new();
    let mut i: usize = 0;
    while i < n
        invariant
            n == text@.len(),
            0 <= i <= n,
            out@ == replace_colons(text@).subrange(0, i as int),
        decreases n - i,
    {
        let c = text.get_char(i);
        let ghost before = out@;
        if c == ':' {
            let dash = "-";
            proof {
                reveal_strlit("-");
            }
            assert(dash@ =~= seq!['-']);
            out.append(dash);
        } else {
            let piece = text.as_str().substring_char(i, i + 1);
            assert(piece@ =~= seq![c]);
            out.append(piece);
        }
        assert(out@ =~= before.push(replace_colons(text@)[i as int]));
        assert(out@ =~= replace_colons(text@).subrange(0, i + 1));
        i = i + 1;
    }
    assert(out@ =~= replace_colons(text@));
    assert(restore_colons(out@) =~= text@);
    proof {
        if in_four_digit_years(now) {
            assert forall|other: i64| in_four_digit_years(other) && other < now implies (#[trigger] timestamp_dir_of(other) matches Some(e)
                && text_before(e, out@)) by {
                let u = rfc3339_secs_of(other)->0;
                lemma_replace_keeps_order(u, text@);
            }
        }
    }
    Some(out)
}

} // verus!
