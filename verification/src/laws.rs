//! What the reading does, stated in terms of the characters of a line and
//! the values of the state alone.

use vstd::prelude::*;
use crate::acmi::{
    lemma_object_groups_in, lemma_pilot_groups_in, object_groups, object_id_group, pilot_groups,
    telemetry_groups,
};
use crate::models::game_state::GameModel;
use crate::models::player::{PartialPlayerModel, PlayerModel};
use crate::models::position::PositionModel;
use crate::processing::{
    credited, credited_all, line_effect, marker_pilot, marker_pilot_head, whitelisted, LaunchModel,
    LineFault,
};
use crate::text::{
    contains_seq, float_literal, format_hex_i32, has_at, in_class, lemma_hex_round_trip, lemma_lower_hex, lemma_span, lower_hex,
    parse_hex_i32, span, CharClass,
};

verus! {

// ---------------------------------------------------------------------------
// Line shapes
// ---------------------------------------------------------------------------

/// The class written `[^,]` holds every character but the comma, spaces
/// and brackets included.
pub proof fn law_not_comma_class(c: char)
    ensures
        in_class(CharClass::NotComma, c) <==> c != ',',
{
}

/// The pilot's name of a pilot line is everything after `Pilot=` up to the
/// next comma, or to the end of the line: it holds no comma, and a comma or
/// the end of the line follows it.
pub proof fn law_pilot_name_runs_to_comma(s: Seq<char>)
    ensures
        pilot_groups(s) matches Some(g) ==> {
            &&& g[6].0 < g[6].1
            &&& g[6].1 == s.len() || s[g[6].1] == ','
            &&& forall|k: int| g[6].0 <= k < g[6].1 ==> #[trigger] s[k] != ','
        },
{
    lemma_pilot_groups_in(s);
    if let Some(g) = pilot_groups(s) {
        let a = g[6].0;
        lemma_span(s, a, CharClass::NotComma);
        assert forall|k: int| g[6].0 <= k < g[6].1 implies #[trigger] s[k] != ',' by {
            assert(in_class(CharClass::NotComma, s[k]));
        }
        if g[6].1 < s.len() {
            assert(!in_class(CharClass::NotComma, s[g[6].1]));
        }
    }
}

/// The aircraft type and the name of an object line likewise run up to the
/// next comma, which the next field's name follows.
pub proof fn law_pilot_fields_run_to_comma(s: Seq<char>)
    ensures
        pilot_groups(s) matches Some(g) ==> {
            &&& s[g[4].1] == ',' && s[g[5].1] == ','
            &&& forall|k: int| g[4].0 <= k < g[4].1 ==> #[trigger] s[k] != ','
            &&& forall|k: int| g[5].0 <= k < g[5].1 ==> #[trigger] s[k] != ','
        },
{
    lemma_pilot_groups_in(s);
    if let Some(g) = pilot_groups(s) {
        lemma_span(s, g[4].0, CharClass::NotComma);
        lemma_span(s, g[5].0, CharClass::NotComma);
        assert forall|k: int| g[4].0 <= k < g[4].1 implies #[trigger] s[k] != ',' by {
            assert(in_class(CharClass::NotComma, s[k]));
        }
        assert forall|k: int| g[5].0 <= k < g[5].1 implies #[trigger] s[k] != ',' by {
            assert(in_class(CharClass::NotComma, s[k]));
        }
        assert(s.subrange(g[4].1, g[4].1 + 6)[0] == s[g[4].1]);
        assert(s.subrange(g[5].1, g[5].1 + 7)[0] == s[g[5].1]);
    }
}

// ---------------------------------------------------------------------------
// Whitelist
// ---------------------------------------------------------------------------

/// `p` occurs in `name` starting at index `j`.
pub open spec fn occurs_at(name: Seq<char>, p: Seq<char>, j: int) -> bool {
    0 <= j && j + p.len() <= name.len() && forall|k: int| 0 <= k < p.len() ==> name[j + k] == p[k]
}

/// A name is whitelisted exactly when one of the listed names occurs in it,
/// at any position.
pub proof fn law_whitelisted_is_substring(name: Seq<char>, whitelist: Seq<Seq<char>>)
    ensures
        whitelisted(name, whitelist) <==> exists|i: int, j: int|
            0 <= i < whitelist.len() && #[trigger] occurs_at(name, whitelist[i], j),
{
    if whitelisted(name, whitelist) {
        let i = choose|i: int| 0 <= i < whitelist.len() && contains_seq(name, #[trigger] whitelist[i]);
        let p = whitelist[i];
        let j = choose|j: int| 0 <= j <= name.len() - p.len() && #[trigger] name.subrange(j, j + p.len()) == p;
        assert forall|k: int| 0 <= k < p.len() implies name[j + k] == p[k] by {
            assert(name.subrange(j, j + p.len())[k] == name[j + k]);
        }
        assert(occurs_at(name, whitelist[i], j));
    }
    if exists|i: int, j: int| 0 <= i < whitelist.len() && #[trigger] occurs_at(name, whitelist[i], j) {
        let (i, j) = choose|i: int, j: int| 0 <= i < whitelist.len() && #[trigger] occurs_at(name, whitelist[i], j);
        let p = whitelist[i];
        assert(name.subrange(j, j + p.len()) =~= p);
        assert(contains_seq(name, whitelist[i]));
    }
}

// ---------------------------------------------------------------------------
// Head tracking
// ---------------------------------------------------------------------------

/// A head-tracking line for a remembered pilot who is not tracked yet makes
/// that pilot tracked with the name and the aircraft that the pilot line
/// gave, created at the current time, not yet left, at `0`, `0`, `0`;
/// nothing else changes.
pub proof fn law_head_tracking_promotes(g: GameModel, whitelist: Seq<Seq<char>>, s: Seq<char>, id: i32)
    requires
        !contains_seq(s, marker_pilot()),
        contains_seq(s, marker_pilot_head()),
        object_id_group(s) matches Some(e) && parse_hex_i32(s.subrange(e.0, e.1)) == Some(id),
        !g.players.contains_key(id),
        g.partial_players.contains_key(id),
    ensures
        line_effect(g, whitelist, s) is Ok,
        line_effect(g, whitelist, s)->Ok_0.1 is None,
        ({
            let next = line_effect(g, whitelist, s)->Ok_0.0;
            &&& next.players == g.players.insert(
                id,
                PlayerModel {
                    name: g.partial_players[id].name,
                    vehicle: g.partial_players[id].vehicle,
                    creation_time: g.current_time,
                    deletion_time: None,
                    time_in_game: None,
                },
            )
            &&& next.positions == g.positions.insert(
                id,
                PositionModel { lat: seq!['0'], long: seq!['0'], alt: seq!['0'] },
            )
            &&& next.current_time == g.current_time
            &&& next.partial_players == g.partial_players
            &&& next.weapon_stats == g.weapon_stats
        }),
{
    let e = object_id_group(s)->0;
    lemma_span(s, 0, CharClass::LowerHexDigit);
    assert(in_class(CharClass::LowerHexDigit, s[0]));
}

// ---------------------------------------------------------------------------
// Telemetry
// ---------------------------------------------------------------------------

/// The coordinate text a telemetry field leaves: the old one when the field
/// `(a, b)` is empty, the field's text otherwise.
pub open spec fn field_or_old(s: Seq<char>, a: int, b: int, old: Seq<char>) -> Seq<char> {
    if a == b {
        old
    } else {
        s.subrange(a, b)
    }
}

/// A telemetry line for a tracked pilot sets each coordinate on its own: to
/// the line's field where the field is not empty, else to the pilot's
/// previous value, whatever the other fields hold; when the three results
/// parse, the line applies and changes nothing else.
pub proof fn law_telemetry_sets_each_field(
    g: GameModel,
    whitelist: Seq<Seq<char>>,
    s: Seq<char>,
    id: i32,
)
    requires
        !contains_seq(s, marker_pilot()),
        !contains_seq(s, marker_pilot_head()),
        telemetry_groups(s) matches Some(gr) && s.subrange(gr[0].0, gr[0].1) == lower_hex(id as nat),
        id >= 0,
        g.players.contains_key(id),
        ({
            let gr = telemetry_groups(s)->0;
            let old = g.positions[id];
            &&& crate::text::float_literal(field_or_old(s, gr[1].0, gr[1].1, old.lat))
            &&& crate::text::float_literal(field_or_old(s, gr[2].0, gr[2].1, old.long))
            &&& crate::text::float_literal(field_or_old(s, gr[3].0, gr[3].1, old.alt))
        }),
    ensures
        ({
            let gr = telemetry_groups(s)->0;
            let old = g.positions[id];
            line_effect(g, whitelist, s) == Ok::<(GameModel, Option<crate::processing::LaunchModel>), crate::processing::LineFault>(
                (
                    GameModel {
                        positions: g.positions.insert(
                            id,
                            PositionModel {
                                lat: field_or_old(s, gr[1].0, gr[1].1, old.lat),
                                long: field_or_old(s, gr[2].0, gr[2].1, old.long),
                                alt: field_or_old(s, gr[3].0, gr[3].1, old.alt),
                            },
                        ),
                        ..g
                    },
                    None,
                ),
            )
        }),
{
    let gr = telemetry_groups(s)->0;
    let c = span(s, 0, CharClass::NotComma);
    let x = s.subrange(0, c);
    lemma_lower_hex(id as nat);
    lemma_hex_round_trip(id);
    assert(x == lower_hex(id as nat));
    assert(in_class(CharClass::LowerHexDigit, x[0]));
    assert(s[0] == x[0]);
    assert(has_at(s, c, seq![',', 'T', '=']));
    assert(s.subrange(c + 1, c + 1 + 2) =~= seq!['T', '=']) by {
        assert(s.subrange(c, c + 3)[1] == s[c + 1]);
        assert(s.subrange(c, c + 3)[2] == s[c + 2]);
    }
    assert(contains_seq(s, seq!['T', '=']));
    assert(crate::text::format_hex_i32(id) == x);
    assert(crate::processing::telemetry_listed(g.players.dom(), x));
}

// ---------------------------------------------------------------------------
// Weapon counts
// ---------------------------------------------------------------------------

/// One launch of `weapon` credited to pilot `id` counts that weapon of that
/// pilot once more (from 1 when it had no count), and leaves every other
/// count of the pilot and every other pilot's table as they were.
pub proof fn law_credit_changes_one_count(
    stats: Map<i32, Map<Seq<char>, i32>>,
    id: i32,
    weapon: Seq<char>,
)
    ensures
        ({
            let next = credited(stats, id, weapon);
            &&& next.contains_key(id) && next[id].contains_key(weapon)
            &&& next[id][weapon] == (if stats.contains_key(id) && stats[id].contains_key(weapon) {
                (stats[id][weapon] + 1) as i32
            } else {
                1i32
            })
            &&& forall|w: Seq<char>|
                w != weapon ==> (#[trigger] next[id].contains_key(w) <==> (stats.contains_key(id)
                    && stats[id].contains_key(w)))
            &&& forall|w: Seq<char>|
                w != weapon && #[trigger] next[id].contains_key(w) ==> next[id][w] == stats[id][w]
            &&& forall|i: i32| i != id ==> (#[trigger] next.contains_key(i) <==> stats.contains_key(i))
            &&& forall|i: i32| i != id && #[trigger] next.contains_key(i) ==> next[i] == stats[i]
        }),
{
}

/// A launch credited to the pilots of `ids` counts the weapon once more for
/// each of them and changes no other count, of any pilot.
pub proof fn law_credit_launch_changes_one_count_each(
    stats: Map<i32, Map<Seq<char>, i32>>,
    ids: Set<i32>,
    weapon: Seq<char>,
)
    ensures
        ({
            let next = credited_all(stats, ids, weapon);
            &&& forall|i: i32| #[trigger] ids.contains(i) ==> next.contains_key(i) && next[i].contains_key(weapon)
                && next[i][weapon] == (if stats.contains_key(i) && stats[i].contains_key(weapon) {
                (stats[i][weapon] + 1) as i32
            } else {
                1i32
            })
            &&& forall|i: i32, w: Seq<char>|
                ids.contains(i) && w != weapon ==> (#[trigger] next[i].contains_key(w) <==> (
                stats.contains_key(i) && #[trigger] stats[i].contains_key(w)))
            &&& forall|i: i32, w: Seq<char>|
                ids.contains(i) && w != weapon && #[trigger] next[i].contains_key(w) ==> next[i][w]
                    == stats[i][w]
            &&& forall|i: i32| !ids.contains(i) ==> (#[trigger] next.contains_key(i) <==> stats.contains_key(i))
            &&& forall|i: i32| !ids.contains(i) && #[trigger] next.contains_key(i) ==> next[i] == stats[i]
        }),
{
    let next = credited_all(stats, ids, weapon);
    assert forall|i: i32, w: Seq<char>|
        ids.contains(i) && w != weapon implies (#[trigger] next[i].contains_key(w) <==> (
        stats.contains_key(i) && #[trigger] stats[i].contains_key(w))) by {
    }
}

// ---------------------------------------------------------------------------
// Pilot lines, time marks, removals, launches
// ---------------------------------------------------------------------------

/// The text of characters `a..b` of `s`.
pub open spec fn text_of(s: Seq<char>, g: (int, int)) -> Seq<char> {
    s.subrange(g.0, g.1)
}

/// A pilot line whose id and coordinates parse tracks the pilot, when one
/// of the listed names occurs in the pilot's name: with the `Pilot=` field
/// as name, the `Name=` field as aircraft, created at the current time, at
/// the line's three coordinates. Any other pilot is remembered with that
/// name and aircraft only.
pub proof fn law_pilot_line(g: GameModel, whitelist: Seq<Seq<char>>, s: Seq<char>, id: i32)
    requires
        contains_seq(s, marker_pilot()),
        pilot_groups(s) matches Some(gr) && parse_hex_i32(text_of(s, gr[0])) == Some(id)
            && float_literal(text_of(s, gr[1])) && float_literal(text_of(s, gr[2])) && float_literal(
            text_of(s, gr[3]),
        ),
    ensures
        ({
            let gr = pilot_groups(s)->0;
            let name = text_of(s, gr[6]);
            let vehicle = text_of(s, gr[5]);
            let next = line_effect(g, whitelist, s)->Ok_0.0;
            &&& line_effect(g, whitelist, s) is Ok
            &&& line_effect(g, whitelist, s)->Ok_0.1 is None
            &&& next.current_time == g.current_time
            &&& next.weapon_stats == g.weapon_stats
            &&& (exists|i: int, j: int| 0 <= i < whitelist.len() && #[trigger] occurs_at(name, whitelist[i], j))
                ==> {
                &&& next.players == g.players.insert(
                    id,
                    PlayerModel {
                        name,
                        vehicle,
                        creation_time: g.current_time,
                        deletion_time: None,
                        time_in_game: None,
                    },
                )
                &&& next.positions == g.positions.insert(
                    id,
                    PositionModel {
                        lat: text_of(s, gr[1]),
                        long: text_of(s, gr[2]),
                        alt: text_of(s, gr[3]),
                    },
                )
                &&& next.partial_players == g.partial_players
            }
            &&& !(exists|i: int, j: int| 0 <= i < whitelist.len() && #[trigger] occurs_at(name, whitelist[i], j))
                ==> {
                &&& next.players == g.players
                &&& next.positions == g.positions
                &&& next.partial_players == g.partial_players.insert(
                    id,
                    PartialPlayerModel { name, vehicle },
                )
            }
        }),
{
    let gr = pilot_groups(s)->0;
    law_whitelisted_is_substring(text_of(s, gr[6]), whitelist);
}

/// A time mark `#t` whose `t` parses makes `t` the current time and changes
/// nothing else; one whose `t` does not parse is refused.
pub proof fn law_time_mark(g: GameModel, whitelist: Seq<Seq<char>>, s: Seq<char>)
    requires
        !contains_seq(s, marker_pilot()),
        !contains_seq(s, marker_pilot_head()),
        s.len() > 0 && s[0] == '#',
    ensures
        float_literal(s.subrange(1, s.len() as int)) ==> line_effect(g, whitelist, s) == Ok::<
            (GameModel, Option<LaunchModel>),
            LineFault,
        >((GameModel { current_time: s.subrange(1, s.len() as int), ..g }, None)),
        !float_literal(s.subrange(1, s.len() as int)) ==> line_effect(g, whitelist, s) == Err::<
            (GameModel, Option<LaunchModel>),
            LineFault,
        >(LineFault::InvalidTime),
{
    assert(s.drop_first() =~= s.subrange(1, s.len() as int));
}

/// A removal `-id` of a tracked pilot records that the pilot left at the
/// current time and changes nothing else about the pilot or the state; a
/// removal of anything else changes nothing.
pub proof fn law_removal(g: GameModel, whitelist: Seq<Seq<char>>, s: Seq<char>)
    requires
        !contains_seq(s, marker_pilot()),
        !contains_seq(s, marker_pilot_head()),
        s.len() > 0 && s[0] == '-',
    ensures
        line_effect(g, whitelist, s) is Ok,
        line_effect(g, whitelist, s)->Ok_0.1 is None,
        ({
            let rest = s.subrange(1, s.len() as int);
            let next = line_effect(g, whitelist, s)->Ok_0.0;
            let id = parse_hex_i32(rest)->0;
            let hit = parse_hex_i32(rest) is Some && g.players.contains_key(id);
            &&& hit ==> next == (GameModel {
                players: g.players.insert(
                    id,
                    PlayerModel {
                        name: g.players[id].name,
                        vehicle: g.players[id].vehicle,
                        creation_time: g.players[id].creation_time,
                        deletion_time: Some(g.current_time),
                        time_in_game: g.players[id].time_in_game,
                    },
                ),
                ..g
            })
            &&& !hit ==> next == g
        }),
{
    assert(s.drop_first() =~= s.subrange(1, s.len() as int));
}

/// An object line that is not telemetry of a tracked pilot, read while
/// someone is tracked, asks for the launch of the weapon named by its
/// `Name=` field at its first two coordinates, and changes nothing.
pub proof fn law_weapon_launch(g: GameModel, whitelist: Seq<Seq<char>>, s: Seq<char>)
    requires
        !contains_seq(s, marker_pilot()),
        !contains_seq(s, marker_pilot_head()),
        object_groups(s) matches Some(gr) && float_literal(text_of(s, gr[1])) && float_literal(
            text_of(s, gr[2]),
        ),
        !g.players.dom().is_empty(),
        !g.positions.dom().is_empty(),
        forall|k: i32|
            #[trigger] g.players.contains_key(k) ==> format_hex_i32(k) != s.subrange(
                0,
                span(s, 0, CharClass::NotComma),
            ),
    ensures
        ({
            let gr = object_groups(s)->0;
            line_effect(g, whitelist, s) == Ok::<(GameModel, Option<LaunchModel>), LineFault>(
                (
                    g,
                    Some(
                        LaunchModel {
                            weapon: text_of(s, gr[5]),
                            lat: text_of(s, gr[1]),
                            long: text_of(s, gr[2]),
                        },
                    ),
                ),
            )
        }),
{
    let gr = object_groups(s)->0;
    lemma_object_groups_in(s);
    lemma_span(s, 0, CharClass::LowerHexDigit);
    assert(in_class(CharClass::LowerHexDigit, s[0]));
    let e1 = gr[0].1;
    assert(has_at(s, e1, seq![',', 'T', '=']));
    assert(s.subrange(e1 + 1, e1 + 1 + 2) =~= seq!['T', '=']) by {
        assert(s.subrange(e1, e1 + 3)[1] == s[e1 + 1]);
        assert(s.subrange(e1, e1 + 3)[2] == s[e1 + 2]);
    }
    assert(contains_seq(s, seq!['T', '=']));
}

} // verus!
