//! The report's small vocabularies: player colors, severity marks, `m:ss` times, and the
//! choice of the player the report is for.
use vstd::prelude::*;

use crate::replay::analyze::model::{PlayerInfo, Severity};
use crate::replay::config::{mmss, mmss_of};
use crate::text::{ascii_lower_chars, ascii_lower_seq, chars_eq, chars_of, string_of};

verus! {

/// The name of a player color id: 1-indexed slot colors, the eighth stored as 0 (or 8).
pub open spec fn color_of(id: i32) -> Seq<char> {
    if id == 1 {
        "Blue"@
    } else if id == 2 {
        "Red"@
    } else if id == 3 {
        "Green"@
    } else if id == 4 {
        "Yellow"@
    } else if id == 5 {
        "Cyan"@
    } else if id == 6 {
        "Purple"@
    } else if id == 7 {
        "Gray"@
    } else if id == 0 || id == 8 {
        "Orange"@
    } else {
        "?"@
    }
}

/// The slot color of a player color id (`"?"` for an unknown one).
pub fn color_name(id: i32) -> (r: &'static str)
    ensures
        r@ == color_of(id),
{
    if id == 1 {
        "Blue"
    } else if id == 2 {
        "Red"
    } else if id == 3 {
        "Green"
    } else if id == 4 {
        "Yellow"
    } else if id == 5 {
        "Cyan"
    } else if id == 6 {
        "Purple"
    } else if id == 7 {
        "Gray"
    } else if id == 0 || id == 8 {
        "Orange"
    } else {
        "?"
    }
}

/// The mark of a severity.
pub open spec fn sev_mark(s: Severity) -> Seq<char> {
    match s {
        Severity::High => "✗"@,
        Severity::Med => "⚠"@,
        Severity::Low => "·"@,
    }
}

/// The mark a finding of severity `s` is listed with.
pub fn sev_symbol(s: Severity) -> (r: &'static str)
    ensures
        r@ == sev_mark(s),
{
    match s {
        Severity::High => "✗",
        Severity::Med => "⚠",
        Severity::Low => "·",
    }
}

/// A time in milliseconds as `m:ss`, or `"—"` when absent.
pub fn opt_mmss(ms: Option<u32>) -> (r: String)
    ensures
        r@ == match ms {
            Some(m) => mmss_of((m / 1000) as nat),
            None => "—"@,
        },
{
    match ms {
        Some(m) => mmss(m / 1000),
        None => string_of(&chars_of("—")),
    }
}

/// The first player whose name equals `name` ignoring ASCII case.
pub open spec fn named_player(ps: Seq<PlayerInfo>, name: Seq<char>) -> Option<i32>
    decreases ps.len(),
{
    if ps.len() == 0 {
        None
    } else if ascii_lower_seq(ps[0].name@) == ascii_lower_seq(name) {
        Some(ps[0].player_number)
    } else {
        named_player(ps.drop_first(), name)
    }
}

/// The player the report is for: the one named `you` (ignoring ASCII case), else the
/// recording player.
#[verifier::loop_isolation(false)]
pub fn resolve_you(you: &Option<String>, players: &[PlayerInfo], rec_player: i32) -> (r: i32)
    ensures
        r == match you {
            Some(n) => match named_player(players@, n@) {
                Some(pn) => pn,
                None => rec_player,
            },
            None => rec_player,
        },
{
    match you {
        Some(name) => {
            let want = ascii_lower_chars(&chars_of(name.as_str()));
            let mut i: usize = 0;
            assert(players@.subrange(0, players@.len() as int) == players@);
            while i < players.len()
                invariant
                    i <= players@.len(),
                    want@ == ascii_lower_seq(name@),
                    named_player(players@, name@) == named_player(players@.subrange(i as int, players@.len() as int), name@),
                decreases players@.len() - i,
            {
                let ghost t = players@.subrange(i as int, players@.len() as int);
                assert(t[0] == players@[i as int]);
                assert(t.drop_first() == players@.subrange(i + 1, players@.len() as int));
                let got = ascii_lower_chars(&chars_of(players[i].name.as_str()));
                if chars_eq(&got, &want) {
                    return players[i].player_number;
                }
                i = i + 1;
            }
            rec_player
        },
        None => rec_player,
    }
}

} // verus!
