//! Reading a recording line by line.
//!
//! [`GameState::process_line`] takes one line and changes the state as the
//! line asks. A weapon launch is the one event whose effect depends on
//! distances between positions: the step reports it as
//! [`LineAction::CheckLaunch`], and the caller counts the launch, with
//! [`increment_weapon_counter`], for every tracked pilot close enough to it.

use std::collections::HashMap;
use vstd::prelude::*;
use vstd::std_specs::iter::IteratorSpec;
use crate::acmi::{
    group_text, lemma_object_groups_in, lemma_object_id_group_in, lemma_pilot_groups_in,
    lemma_telemetry_groups_in, match_object, match_object_id, match_pilot,
    match_telemetry, object_groups, object_id_group, pilot_groups, spans_view, telemetry_groups,
};
use crate::models::game_state::{
    origin, players_view, weapon_stats_view, weapon_tables_valid, GameModel, GameState,
    ParsingResult,
};
use crate::models::player::PlayerModel;
use crate::models::position::{Position, PositionModel};
use crate::models::weapons::WeaponCounts;
use crate::text::{
    canonical_hex_u32, chars_of, contains_chars, has_at, matches_at, contains_seq, copy_range, float_literal,
    format_hex_i32, hex_value, is_float_literal, lemma_canonical_is_lower_hex,
    lemma_hex_round_trip, lemma_lower_hex, lemma_single_digit_literal, lower_hex, parse_hex_i32,
    parse_hex_i32_range, string_contains, unsigned_part,
};

verus! {

broadcast use vstd::std_specs::hash::group_hash_axioms;

// ---------------------------------------------------------------------------
// What a line does
// ---------------------------------------------------------------------------

/// Why a line cannot be applied: the line carries a number that does not
/// parse where one is needed, or names a pilot that was never announced.
#[derive(Clone, Copy, PartialEq, Eq, Debug)]
pub enum LineFault {
    /// An object id does not fit in an `i32`.
    InvalidId,
    InvalidLatitude,
    InvalidLongitude,
    InvalidAltitude,
    /// Head tracking for an object that no pilot line announced.
    UnknownPilot,
    /// A time mark that is not a number.
    InvalidTime,
    /// Telemetry for a tracked id that does not read back as an `i32`.
    InvalidTrackedId,
}

/// A weapon launch, as its creation line gives it.
pub struct LaunchModel {
    pub weapon: Seq<char>,
    pub lat: Seq<char>,
    pub long: Seq<char>,
}

/// A weapon was created at `lat`, `long`: each tracked pilot within the
/// counting distance of that point should be credited with `weapon`.
pub struct WeaponLaunch {
    pub weapon: String,
    pub lat: String,
    pub long: String,
}

impl View for WeaponLaunch {
    type V = LaunchModel;

    open spec fn view(&self) -> LaunchModel {
        LaunchModel { weapon: self.weapon@, lat: self.lat@, long: self.long@ }
    }
}

/// What the caller still has to do after a line.
pub enum LineAction {
    /// Nothing: the line has been applied.
    Continue,
    /// Credit the launch to the tracked pilots next to it.
    CheckLaunch(WeaponLaunch),
}

impl View for LineAction {
    type V = Option<LaunchModel>;

    open spec fn view(&self) -> Option<LaunchModel> {
        match self {
            LineAction::Continue => None,
            LineAction::CheckLaunch(l) => Some(l@),
        }
    }
}

pub open spec fn strings_view(v: Seq<String>) -> Seq<Seq<char>> {
    v.map_values(|s: String| s@)
}

pub open spec fn marker_pilot() -> Seq<char> {
    seq!['P', 'i', 'l', 'o', 't', '=']
}

pub open spec fn marker_pilot_head() -> Seq<char> {
    seq!['P', 'i', 'l', 'o', 't', 'H', 'e', 'a', 'd']
}

pub open spec fn marker_transform() -> Seq<char> {
    seq!['T', '=']
}

/// `name` contains one of the whitelisted names.
pub open spec fn whitelisted(name: Seq<char>, whitelist: Seq<Seq<char>>) -> bool {
    exists|i: int| 0 <= i < whitelist.len() && contains_seq(name, #[trigger] whitelist[i])
}

/// The id texts that telemetry lines are read for: what `{:x}` prints for
/// each tracked id; the empty text while nobody is tracked.
pub open spec fn telemetry_listed(ids: Set<i32>, x: Seq<char>) -> bool {
    ||| ids.is_empty() && x.len() == 0
    ||| exists|k: i32| ids.contains(k) && #[trigger] format_hex_i32(k) == x
}

/// A pilot object's creation line:
/// an id that fits in an `i32` and three coordinates that parse; a pilot
/// whose name holds a whitelisted name is tracked, any other is remembered.
pub open spec fn pilot_effect(g: GameModel, whitelist: Seq<Seq<char>>, s: Seq<char>) -> Result<
    (GameModel, Option<LaunchModel>),
    LineFault,
> {
    match pilot_groups(s) {
        None => Ok((g, None)),
        Some(gr) => match parse_hex_i32(group_text(s, gr[0])) {
            None => Err(LineFault::InvalidId),
            Some(id) => {
                let lat = group_text(s, gr[1]);
                let long = group_text(s, gr[2]);
                let alt = group_text(s, gr[3]);
                let vehicle = group_text(s, gr[5]);
                let name = group_text(s, gr[6]);
                if !float_literal(lat) {
                    Err(LineFault::InvalidLatitude)
                } else if !float_literal(long) {
                    Err(LineFault::InvalidLongitude)
                } else if !float_literal(alt) {
                    Err(LineFault::InvalidAltitude)
                } else if whitelisted(name, whitelist) {
                    Ok((g.with_player(id, name, vehicle, PositionModel { lat, long, alt }), None))
                } else {
                    Ok((g.with_world_player(id, name, vehicle), None))
                }
            },
        },
    }
}

/// A head-tracking line: a remembered pilot becomes tracked, at the
/// origin; an already tracked pilot is left as is.
pub open spec fn pilot_head_effect(g: GameModel, s: Seq<char>) -> Result<
    (GameModel, Option<LaunchModel>),
    LineFault,
> {
    match object_id_group(s) {
        None => Ok((g, None)),
        Some(gr) => match parse_hex_i32(group_text(s, gr)) {
            None => Err(LineFault::InvalidId),
            Some(id) => if g.players.contains_key(id) {
                Ok((g, None))
            } else if g.partial_players.contains_key(id) {
                Ok(
                    (
                        g.with_player(
                            id,
                            g.partial_players[id].name,
                            g.partial_players[id].vehicle,
                            origin(),
                        ),
                        None,
                    ),
                )
            } else {
                Err(LineFault::UnknownPilot)
            },
        },
    }
}

/// A time mark `#t`: `t` becomes the current time.
pub open spec fn time_effect(g: GameModel, s: Seq<char>) -> Result<
    (GameModel, Option<LaunchModel>),
    LineFault,
> {
    if float_literal(s.drop_first()) {
        Ok((GameModel { current_time: s.drop_first(), ..g }, None))
    } else {
        Err(LineFault::InvalidTime)
    }
}

/// A removal `-id`: a tracked pilot left at the current time; any other
/// text after the `-` is passed over.
pub open spec fn removal_effect(g: GameModel, s: Seq<char>) -> Result<
    (GameModel, Option<LaunchModel>),
    LineFault,
> {
    match parse_hex_i32(s.drop_first()) {
        Some(id) => if g.players.contains_key(id) {
            Ok((g.with_deletion(id), None))
        } else {
            Ok((g, None))
        },
        None => Ok((g, None)),
    }
}

/// A coordinate that the telemetry line leaves empty keeps its old text.
pub open spec fn updated_field(s: Seq<char>, g: (int, int), old: Seq<char>) -> Seq<char> {
    if g.0 == g.1 {
        old
    } else {
        group_text(s, g)
    }
}

/// A telemetry line for a tracked pilot moves the pilot; otherwise, if the
/// line creates an object while someone is tracked, it is a weapon launch
/// whose two leading coordinates must parse.
pub open spec fn transform_effect(g: GameModel, s: Seq<char>) -> Result<
    (GameModel, Option<LaunchModel>),
    LineFault,
> {
    let tg = telemetry_groups(s);
    if tg is Some && telemetry_listed(g.players.dom(), group_text(s, tg->0[0])) {
        let gr = tg->0;
        match parse_hex_i32(group_text(s, gr[0])) {
            None => Err(LineFault::InvalidTrackedId),
            Some(id) => {
                let old = g.positions[id];
                let lat = updated_field(s, gr[1], old.lat);
                let long = updated_field(s, gr[2], old.long);
                let alt = updated_field(s, gr[3], old.alt);
                if !float_literal(lat) {
                    Err(LineFault::InvalidLatitude)
                } else if !float_literal(long) {
                    Err(LineFault::InvalidLongitude)
                } else if !float_literal(alt) {
                    Err(LineFault::InvalidAltitude)
                } else {
                    Ok(
                        (
                            GameModel {
                                positions: g.positions.insert(id, PositionModel { lat, long, alt }),
                                ..g
                            },
                            None,
                        ),
                    )
                }
            },
        }
    } else {
        match object_groups(s) {
            None => Ok((g, None)),
            Some(gr) => if g.positions.dom().is_empty() {
                Ok((g, None))
            } else {
                let lat = group_text(s, gr[1]);
                let long = group_text(s, gr[2]);
                if !float_literal(lat) {
                    Err(LineFault::InvalidLatitude)
                } else if !float_literal(long) {
                    Err(LineFault::InvalidLongitude)
                } else {
                    Ok((g, Some(LaunchModel { weapon: group_text(s, gr[5]), lat, long })))
                }
            },
        }
    }
}

/// What one line does to the state, tried in this order: a line holding
/// `Pilot=`, one holding `PilotHead`, a time mark `#...`, a removal
/// `-...`, a line holding `T=`; any other line changes nothing.
pub open spec fn line_effect(g: GameModel, whitelist: Seq<Seq<char>>, s: Seq<char>) -> Result<
    (GameModel, Option<LaunchModel>),
    LineFault,
> {
    if contains_seq(s, marker_pilot()) {
        pilot_effect(g, whitelist, s)
    } else if contains_seq(s, marker_pilot_head()) {
        pilot_head_effect(g, s)
    } else if s.len() > 0 && s[0] == '#' {
        time_effect(g, s)
    } else if s.len() > 0 && s[0] == '-' {
        removal_effect(g, s)
    } else if contains_seq(s, marker_transform()) {
        transform_effect(g, s)
    } else {
        Ok((g, None))
    }
}

// ---------------------------------------------------------------------------
// Laws of a step
// ---------------------------------------------------------------------------

/// An id text that telemetry is read for reads back, through
/// `i32::from_str_radix(_, 16)`, only as an id that is tracked.
pub proof fn lemma_listed_id(ids: Set<i32>, x: Seq<char>, id: i32)
    requires
        telemetry_listed(ids, x),
        parse_hex_i32(x) == Some(id),
    ensures
        ids.contains(id),
{
    if ids.is_empty() && x.len() == 0 {
        assert(unsigned_part(x).len() == 0);
    } else {
        let k = choose|k: i32| ids.contains(k) && #[trigger] format_hex_i32(k) == x;
        if k >= 0 {
            lemma_hex_round_trip(k);
        } else {
            let n = (k + 0x1_0000_0000) as nat;
            lemma_lower_hex(n);
            assert(x == lower_hex(n));
            assert(x[0] != '+' && x[0] != '-');
            assert(unsigned_part(x) == x);
            assert(hex_value(x) == n);
        }
    }
}

/// Every line that applies keeps the state well formed: each tracked pilot
/// keeps a position (and only tracked pilots have one), and every stored
/// time and coordinate still parses.
pub proof fn lemma_line_effect_preserves_wf(g: GameModel, whitelist: Seq<Seq<char>>, s: Seq<char>)
    requires
        g.wf(),
        line_effect(g, whitelist, s) is Ok,
    ensures
        line_effect(g, whitelist, s)->Ok_0.0.wf(),
{
    let next = line_effect(g, whitelist, s)->Ok_0.0;
    if contains_seq(s, marker_pilot()) {
        if let Some(gr) = pilot_groups(s) {
            if let Some(id) = parse_hex_i32(group_text(s, gr[0])) {
                if whitelisted(group_text(s, gr[6]), whitelist) {
                    assert(next.players.dom() =~= next.positions.dom());
                }
            }
        }
    } else if contains_seq(s, marker_pilot_head()) {
        if let Some(gr) = object_id_group(s) {
            if let Some(id) = parse_hex_i32(group_text(s, gr)) {
                if !g.players.contains_key(id) {
                    assert(next.players.dom() =~= next.positions.dom());
                    lemma_single_digit_literal('0');
                }
            }
        }
    } else if s.len() > 0 && s[0] == '#' {
    } else if s.len() > 0 && s[0] == '-' {
        if let Some(id) = parse_hex_i32(s.drop_first()) {
            if g.players.contains_key(id) {
                assert(next.players.dom() =~= next.positions.dom());
            }
        }
    } else if contains_seq(s, marker_transform()) {
        let tg = telemetry_groups(s);
        if tg is Some && telemetry_listed(g.players.dom(), group_text(s, tg->0[0])) {
            if let Some(id) = parse_hex_i32(group_text(s, tg->0[0])) {
                lemma_listed_id(g.players.dom(), group_text(s, tg->0[0]), id);
                assert(next.players.dom() =~= next.positions.dom());
            }
        }
    }
}

/// No line forgets a pilot: every tracked and every remembered pilot is
/// still there after any line that applies.
pub proof fn lemma_line_effect_keeps_pilots(g: GameModel, whitelist: Seq<Seq<char>>, s: Seq<char>)
    requires
        line_effect(g, whitelist, s) is Ok,
    ensures
        g.players.dom().subset_of(line_effect(g, whitelist, s)->Ok_0.0.players.dom()),
        g.partial_players.dom().subset_of(
            line_effect(g, whitelist, s)->Ok_0.0.partial_players.dom(),
        ),
        line_effect(g, whitelist, s)->Ok_0.0.weapon_stats == g.weapon_stats,
{
}

// ---------------------------------------------------------------------------
// Applying a line
// ---------------------------------------------------------------------------

/// The result `r` of a step, taken from `pre` to `post`, is the effect `e`;
/// a line that cannot be applied changes nothing.
pub open spec fn step_agrees(
    e: Result<(GameModel, Option<LaunchModel>), LineFault>,
    pre: GameModel,
    post: GameModel,
    r: Result<LineAction, LineFault>,
) -> bool {
    match r {
        Ok(a) => e == Ok::<(GameModel, Option<LaunchModel>), LineFault>((post, a@)),
        Err(f) => e == Err::<(GameModel, Option<LaunchModel>), LineFault>(f) && post == pre,
    }
}

/// The text `line[lo..hi]` as a new string.
fn group_string(line: &str, lo: usize, hi: usize) -> (r: String)
    requires
        lo <= hi <= line@.len(),
    ensures
        r@ == line@.subrange(lo as int, hi as int),
{
    line.substring_char(lo, hi).to_owned()
}

/// Whether `s[lo..hi]` parses as a float.
fn range_is_float(s: &Vec<char>, lo: usize, hi: usize) -> (r: bool)
    requires
        lo <= hi <= s@.len(),
    ensures
        r == float_literal(s@.subrange(lo as int, hi as int)),
{
    is_float_literal(&copy_range(s, lo, hi))
}

/// Whether `name` contains one of the names in `list`.
pub fn contains_any(name: &String, list: &Vec<String>) -> (r: bool)
    ensures
        r == whitelisted(name@, strings_view(list@)),
{
    let ghost wl = strings_view(list@);
    let mut i: usize = 0;
    while i < list.len()
        invariant
            i <= list@.len(),
            wl == strings_view(list@),
            forall|j: int| 0 <= j < i ==> !contains_seq(name@, #[trigger] wl[j]),
        decreases list@.len() - i,
    {
        if string_contains(name, &list[i]) {
            assert(wl[i as int] == list@[i as int]@);
            return true;
        }
        i = i + 1;
    }
    false
}

/// The names whose pilots are tracked: a pilot is tracked when the pilot's
/// name contains one of them.
pub fn pilot_whitelist() -> (w: Vec<String>)
    ensures
        strings_view(w@) == seq![seq!['n', 'i', 'm', 'a', '3', '3', '3', '3']],
{
    let name = String::from_str("nima3333");
    proof {
        reveal_strlit("nima3333");
    }
    assert(name@ =~= seq!['n', 'i', 'm', 'a', '3', '3', '3', '3']);
    let w = vec![name];
    assert(strings_view(w@) =~= seq![seq!['n', 'i', 'm', 'a', '3', '3', '3', '3']]);
    w
}

/// A weapon count table after one more launch of `weapon`.
pub open spec fn counted(m: Map<Seq<char>, i32>, weapon: Seq<char>) -> Map<Seq<char>, i32> {
    m.insert(
        weapon,
        if m.contains_key(weapon) {
            (m[weapon] + 1) as i32
        } else {
            1i32
        },
    )
}

/// The per-pilot weapon tables after one more launch of `weapon` credited
/// to pilot `id`.
pub open spec fn credited(
    stats: Map<i32, Map<Seq<char>, i32>>,
    id: i32,
    weapon: Seq<char>,
) -> Map<i32, Map<Seq<char>, i32>> {
    let before = if stats.contains_key(id) {
        stats[id]
    } else {
        Map::empty()
    };
    stats.insert(id, counted(before, weapon))
}

/// Credits one launch of `weapon_name` to pilot `id`.
pub fn increment_weapon_counter(map: &mut HashMap<i32, WeaponCounts>, id: i32, weapon_name: &str)
    requires
        weapon_stats_view(old(map)@).contains_key(id) && weapon_stats_view(old(map)@)[id].contains_key(
            weapon_name@,
        ) ==> weapon_stats_view(old(map)@)[id][weapon_name@] < i32::MAX,
    ensures
        weapon_stats_view(final(map)@) == credited(weapon_stats_view(old(map)@), id, weapon_name@),
{
    let ghost pre = weapon_stats_view(map@);
    let mut counts = match map.remove(&id) {
        Some(c) => c,
        None => WeaponCounts::new(),
    };
    assert(counts@ == (if pre.contains_key(id) { pre[id] } else { Map::empty() }));
    counts.increment(weapon_name);
    let ghost after = counts@;
    map.insert(id, counts);
    assert(weapon_stats_view(map@) =~= pre.insert(id, after));
}

/// Finished pilots: each pilot who was not seen leaving, or whose
/// recorded leaving time is negative (the ids in `negative`), left at the
/// last time mark.
pub open spec fn finished_players(g: GameModel, negative: Set<i32>) -> Map<i32, PlayerModel> {
    Map::new(
        |id: i32| g.players.contains_key(id),
        |id: i32|
            if g.players[id].deletion_time is None || negative.contains(id) {
                PlayerModel { deletion_time: Some(g.current_time), ..g.players[id] }
            } else {
                g.players[id]
            },
    )
}

/// The table of pilot `id`, empty if the pilot has none.
pub open spec fn table_of(stats: Map<i32, Map<Seq<char>, i32>>, id: i32) -> Map<Seq<char>, i32> {
    if stats.contains_key(id) {
        stats[id]
    } else {
        Map::empty()
    }
}

/// The per-pilot weapon tables after one launch of `weapon` credited once
/// to each pilot of `ids`.
pub open spec fn credited_all(
    stats: Map<i32, Map<Seq<char>, i32>>,
    ids: Set<i32>,
    weapon: Seq<char>,
) -> Map<i32, Map<Seq<char>, i32>> {
    Map::new(
        |i: i32| stats.contains_key(i) || ids.contains(i),
        |i: i32|
            if ids.contains(i) {
                counted(table_of(stats, i), weapon)
            } else {
                stats[i]
            },
    )
}

/// Whether `x` occurs in `v`.
fn vec_contains(v: &Vec<i32>, x: i32) -> (r: bool)
    ensures
        r == v@.contains(x),
{
    let mut i: usize = 0;
    while i < v.len()
        invariant
            i <= v@.len(),
            forall|j: int| 0 <= j < i ==> v@[j] != x,
        decreases v@.len() - i,
    {
        if v[i] == x {
            return true;
        }
        i = i + 1;
    }
    false
}

impl GameState {
    /// Which tracked pilot the id text `s[0..c]` of a telemetry line names:
    /// `None` when the text is not listed; `Some(id)` with what
    /// `i32::from_str_radix(text, 16)` reads from a listed text.
    fn telemetry_target(&self, s: &Vec<char>, c: usize) -> (r: Option<Option<i32>>)
        requires
            c <= s@.len(),
        ensures
            r is Some <==> telemetry_listed(self@.players.dom(), s@.subrange(0, c as int)),
            r matches Some(o) ==> o == parse_hex_i32(s@.subrange(0, c as int)),
    {
        let ghost x = s@.subrange(0, c as int);
        let ghost ids = self@.players.dom();
        assert(ids =~= self.players@.dom());
        if self.players.is_empty() {
            assert(ids.is_empty());
            if c == 0 {
                assert(unsigned_part(x).len() == 0);
                return Some(None);
            } else {
                return None;
            }
        }
        assert(!ids.is_empty());
        match canonical_hex_u32(s, 0, c) {
            None => {
                proof {
                    assert forall|k: i32| ids.contains(k) implies #[trigger] format_hex_i32(k) != x by {
                        if k >= 0 {
                            lemma_lower_hex(k as nat);
                        } else {
                            lemma_lower_hex((k + 0x1_0000_0000) as nat);
                        }
                    }
                }
                None
            },
            Some(v) => {
                let k: i32 = if v <= 0x7fff_ffff {
                    v as i32
                } else {
                    ((v as i64) - 0x1_0000_0000) as i32
                };
                proof {
                    lemma_canonical_is_lower_hex(x);
                    assert(format_hex_i32(k) == x);
                    assert forall|k2: i32| ids.contains(k2) && #[trigger] format_hex_i32(k2) == x implies k2
                        == k by {
                        if k2 >= 0 {
                            lemma_lower_hex(k2 as nat);
                        } else {
                            lemma_lower_hex((k2 + 0x1_0000_0000) as nat);
                        }
                    }
                }
                if self.players.contains_key(&k) {
                    Some(parse_hex_i32_range(s, 0, c))
                } else {
                    None
                }
            },
        }
    }

    fn apply_pilot(&mut self, line: &str, s: &Vec<char>, whitelist: &Vec<String>) -> (r: Result<
        LineAction,
        LineFault,
    >)
        requires
            s@ == line@,
        ensures
            step_agrees(
                pilot_effect(old(self)@, strings_view(whitelist@), s@),
                old(self)@,
                final(self)@,
                r,
            ),
    {
        let ghost sv = s@;
        match match_pilot(s) {
            None => Ok(LineAction::Continue),
            Some(gr) => {
                proof {
                    lemma_pilot_groups_in(sv);
                }
                let ghost g = spans_view(gr@);
                assert(g.len() == 7);
                let (i0, i1) = gr[0];
                let (x0, x1) = gr[1];
                let (y0, y1) = gr[2];
                let (z0, z1) = gr[3];
                let (v0, v1) = gr[5];
                let (n0, n1) = gr[6];
                assert(g[0] == (i0 as int, i1 as int));
                assert(g[1] == (x0 as int, x1 as int));
                assert(g[2] == (y0 as int, y1 as int));
                assert(g[3] == (z0 as int, z1 as int));
                assert(g[5] == (v0 as int, v1 as int));
                assert(g[6] == (n0 as int, n1 as int));
                assert(crate::acmi::group_in(sv, g[0]) && crate::acmi::group_in(sv, g[1])
                    && crate::acmi::group_in(sv, g[2]) && crate::acmi::group_in(sv, g[3])
                    && crate::acmi::group_in(sv, g[5]) && crate::acmi::group_in(sv, g[6]));
                let id = match parse_hex_i32_range(s, i0, i1) {
                    None => {
                        return Err(LineFault::InvalidId);
                    },
                    Some(id) => id,
                };
                if !range_is_float(s, x0, x1) {
                    return Err(LineFault::InvalidLatitude);
                }
                if !range_is_float(s, y0, y1) {
                    return Err(LineFault::InvalidLongitude);
                }
                if !range_is_float(s, z0, z1) {
                    return Err(LineFault::InvalidAltitude);
                }
                let name = group_string(line, n0, n1);
                let vehicle = group_string(line, v0, v1);
                let lat = group_string(line, x0, x1);
                let long = group_string(line, y0, y1);
                let alt = group_string(line, z0, z1);
                if contains_any(&name, whitelist) {
                    self.add_player(id, name, vehicle, Position::new(lat, long, alt));
                } else {
                    self.add_world_player(id, name, vehicle);
                }
                Ok(LineAction::Continue)
            },
        }
    }

    fn apply_pilot_head(&mut self, s: &Vec<char>) -> (r: Result<LineAction, LineFault>)
        ensures
            step_agrees(pilot_head_effect(old(self)@, s@), old(self)@, final(self)@, r),
    {
        match match_object_id(s) {
            None => Ok(LineAction::Continue),
            Some(e) => {
                proof {
                    lemma_object_id_group_in(s@);
                }
                let id = match parse_hex_i32_range(s, 0, e) {
                    None => {
                        return Err(LineFault::InvalidId);
                    },
                    Some(id) => id,
                };
                if self.players.contains_key(&id) {
                    return Ok(LineAction::Continue);
                }
                let (name, vehicle) = match self.partial_players.get(&id) {
                    None => {
                        return Err(LineFault::UnknownPilot);
                    },
                    Some(info) => (info.name.clone(), info.vehicle.clone()),
                };
                let zero = String::from_str("0");
                proof {
                    reveal_strlit("0");
                }
                assert(zero@ =~= seq!['0']);
                let origin_position = Position::new(zero.clone(), zero.clone(), zero);
                self.add_player(id, name, vehicle, origin_position);
                Ok(LineAction::Continue)
            },
        }
    }

    fn apply_time(&mut self, line: &str, s: &Vec<char>) -> (r: Result<LineAction, LineFault>)
        requires
            s@ == line@,
            s@.len() > 0,
        ensures
            step_agrees(time_effect(old(self)@, s@), old(self)@, final(self)@, r),
    {
        if !range_is_float(s, 1, s.len()) {
            assert(s@.subrange(1, s@.len() as int) =~= s@.drop_first());
            return Err(LineFault::InvalidTime);
        }
        assert(s@.subrange(1, s@.len() as int) =~= s@.drop_first());
        self.current_time = group_string(line, 1, s.len());
        Ok(LineAction::Continue)
    }

    fn apply_removal(&mut self, s: &Vec<char>) -> (r: Result<LineAction, LineFault>)
        requires
            s@.len() > 0,
        ensures
            step_agrees(removal_effect(old(self)@, s@), old(self)@, final(self)@, r),
    {
        assert(s@.subrange(1, s@.len() as int) =~= s@.drop_first());
        match parse_hex_i32_range(s, 1, s.len()) {
            None => Ok(LineAction::Continue),
            Some(id) => {
                let ghost pre = self@;
                match self.players.remove(&id) {
                    None => {
                        assert(self.players@ =~= old(self).players@);
                        assert(!pre.players.contains_key(id));
                        Ok(LineAction::Continue)
                    },
                    Some(mut info) => {
                        assert(pre.players.contains_key(id) && pre.players[id] == info@);
                        info.mark_deleted(self.current_time.clone());
                        let ghost info_view = info@;
                        self.players.insert(id, info);
                        assert(self@.players =~= pre.players.insert(id, info_view));
                        Ok(LineAction::Continue)
                    },
                }
            },
        }
    }

    fn apply_transform(&mut self, line: &str, s: &Vec<char>) -> (r: Result<LineAction, LineFault>)
        requires
            s@ == line@,
            old(self).wf(),
        ensures
            step_agrees(transform_effect(old(self)@, s@), old(self)@, final(self)@, r),
    {
        let ghost sv = s@;
        let ghost pre = self@;
        proof {
            lemma_telemetry_groups_in(sv);
            lemma_object_groups_in(sv);
        }
        let tele = match_telemetry(s);
        let mut target: Option<Option<i32>> = None;
        if let Some(gr) = &tele {
            let ghost g = spans_view(gr@);
            let (c0, c1) = gr[0];
            assert(g[0] == (c0 as int, c1 as int));
            assert(c0 == 0);
            target = self.telemetry_target(s, c1);
        }
        if let (Some(gr), Some(found)) = (&tele, target) {
            let ghost g = spans_view(gr@);
            let (x0, x1) = gr[1];
            let (y0, y1) = gr[2];
            let (z0, z1) = gr[3];
            assert(g[1] == (x0 as int, x1 as int));
            assert(g[2] == (y0 as int, y1 as int));
            assert(g[3] == (z0 as int, z1 as int));
            let id = match found {
                None => {
                    return Err(LineFault::InvalidTrackedId);
                },
                Some(id) => id,
            };
            proof {
                lemma_listed_id(pre.players.dom(), group_text(sv, g[0]), id);
            }
            let (lat, long, alt) = match self.positions.get(&id) {
                None => {
                    return Err(LineFault::InvalidTrackedId);
                },
                Some(old) => {
                    let lat = if x0 == x1 {
                        old.lat.clone()
                    } else {
                        group_string(line, x0, x1)
                    };
                    let long = if y0 == y1 {
                        old.long.clone()
                    } else {
                        group_string(line, y0, y1)
                    };
                    let alt = if z0 == z1 {
                        old.alt.clone()
                    } else {
                        group_string(line, z0, z1)
                    };
                    (lat, long, alt)
                },
            };
            let lat_chars = chars_of(lat.as_str());
            if !is_float_literal(&lat_chars) {
                return Err(LineFault::InvalidLatitude);
            }
            let long_chars = chars_of(long.as_str());
            if !is_float_literal(&long_chars) {
                return Err(LineFault::InvalidLongitude);
            }
            let alt_chars = chars_of(alt.as_str());
            if !is_float_literal(&alt_chars) {
                return Err(LineFault::InvalidAltitude);
            }
            match self.positions.remove(&id) {
                None => {
                    return Err(LineFault::InvalidTrackedId);
                },
                Some(mut position) => {
                    position.update(lat, long, alt);
                    let ghost pv = position@;
                    self.positions.insert(id, position);
                    assert(self@.positions =~= pre.positions.insert(id, pv));
                },
            }
            return Ok(LineAction::Continue);
        }
        match match_object(s) {
            None => Ok(LineAction::Continue),
            Some(gr) => {
                if self.positions.is_empty() {
                    assert(pre.positions.dom() =~= self.positions@.dom());
                    return Ok(LineAction::Continue);
                }
                assert(pre.positions.dom() =~= self.positions@.dom());
                let ghost g = spans_view(gr@);
                let (x0, x1) = gr[1];
                let (y0, y1) = gr[2];
                let (w0, w1) = gr[5];
                assert(g[1] == (x0 as int, x1 as int));
                assert(g[2] == (y0 as int, y1 as int));
                assert(g[5] == (w0 as int, w1 as int));
                if !range_is_float(s, x0, x1) {
                    return Err(LineFault::InvalidLatitude);
                }
                if !range_is_float(s, y0, y1) {
                    return Err(LineFault::InvalidLongitude);
                }
                let launch = WeaponLaunch {
                    weapon: group_string(line, w0, w1),
                    lat: group_string(line, x0, x1),
                    long: group_string(line, y0, y1),
                };
                Ok(LineAction::CheckLaunch(launch))
            },
        }
    }
}

fn pilot_marker() -> (r: &'static [char])
    ensures
        r@ == marker_pilot(),
{
    let r: &'static [char] = &['P', 'i', 'l', 'o', 't', '='];
    assert(r@ =~= marker_pilot());
    r
}

fn pilot_head_marker() -> (r: &'static [char])
    ensures
        r@ == marker_pilot_head(),
{
    let r: &'static [char] = &['P', 'i', 'l', 'o', 't', 'H', 'e', 'a', 'd'];
    assert(r@ =~= marker_pilot_head());
    r
}

fn transform_marker() -> (r: &'static [char])
    ensures
        r@ == marker_transform(),
{
    let r: &'static [char] = &['T', '='];
    assert(r@ =~= marker_transform());
    r
}

impl GameState {
    /// Applies one line of a recording (without its line ending) to the
    /// state, for the pilots named by `whitelist`.
    ///
    /// The result is [`line_effect`]: the state it gives and the action it
    /// leaves to the caller; or the fault, with the state unchanged.
    pub fn process_line(&mut self, line: &str, whitelist: &Vec<String>) -> (r: Result<
        LineAction,
        LineFault,
    >)
        requires
            old(self).wf(),
        ensures
            final(self).wf(),
            step_agrees(
                line_effect(old(self)@, strings_view(whitelist@), line@),
                old(self)@,
                final(self)@,
                r,
            ),
    {
        let s = chars_of(line);
        let r = if contains_chars(&s, pilot_marker()) {
            self.apply_pilot(line, &s, whitelist)
        } else if contains_chars(&s, pilot_head_marker()) {
            self.apply_pilot_head(&s)
        } else if s.len() > 0 && s[0] == '#' {
            self.apply_time(line, &s)
        } else if s.len() > 0 && s[0] == '-' {
            self.apply_removal(&s)
        } else if contains_chars(&s, transform_marker()) {
            self.apply_transform(line, &s)
        } else {
            Ok(LineAction::Continue)
        };
        proof {
            if r is Ok {
                lemma_line_effect_preserves_wf(old(self)@, strings_view(whitelist@), line@);
            }
        }
        r
    }

    /// Ends the reading: every tracked pilot who was not seen leaving left
    /// at the last time mark, and so did every pilot of `negative_times`.
    ///
    /// A leaving time counts as unset when it is negative. Whether the
    /// decimal text of a leaving time is a negative number is a
    /// floating-point comparison, so the caller names those pilots, in
    /// `negative_times`.
    pub fn finish(self, negative_times: &Vec<i32>) -> (r: ParsingResult)
        ensures
            players_view(r.players@) == finished_players(self@, negative_times@.to_set()),
            weapon_stats_view(r.weapon_stats@) == self@.weapon_stats,
    {
        let ghost g = self@;
        let GameState { current_time, mut players, positions: _, partial_players: _, weapon_stats } = self;
        let mut ids: Vec<i32> = Vec::new();
        let ghost keys = vstd::std_specs::hash::spec_keys_iter(&players).remaining();
        for k in it: players.keys()
            invariant
                it.seq() == keys,
                ids@ == it.seq().take(it.index() as int).map_values(|r: &i32| *r),
        {
            ids.push(*k);
            assert(ids@ =~= it.seq().take(it.index() + 1).map_values(|r: &i32| *r));
        }
        assert(ids@ =~= keys.unref());
        proof {
            assert(keys.unref().to_set() == players@.dom());
            assert(keys.no_duplicates());
            assert(ids@.no_duplicates());
            assert forall|k: i32| g.players.contains_key(k) implies ids@.contains(k) by {
                assert(players@.dom().contains(k));
                assert(keys.unref().to_set().contains(k));
            }
        }
        let ghost fin = finished_players(g, negative_times@.to_set());
        let mut i: usize = 0;
        while i < ids.len()
            invariant
                i <= ids@.len(),
                ids@.no_duplicates(),
                forall|k: i32| g.players.contains_key(k) ==> ids@.contains(k),
                current_time@ == g.current_time,
                fin == finished_players(g, negative_times@.to_set()),
                players_view(players@).dom() == g.players.dom(),
                forall|k: i32| #[trigger] g.players.contains_key(k) ==> players_view(players@)[k] == (
                if ids@.take(i as int).contains(k) {
                    fin[k]
                } else {
                    g.players[k]
                }),
            decreases ids@.len() - i,
        {
            let id = ids[i];
            let ghost before = players_view(players@);
            let ghost raw_before = players@;
            proof {
                assert(!ids@.take(i as int).contains(id)) by {
                    if ids@.take(i as int).contains(id) {
                        let j = choose|j: int| 0 <= j < i && ids@.take(i as int)[j] == id;
                        assert(ids@[j] == ids@[i as int]);
                    }
                }
                assert(ids@.take(i + 1) =~= ids@.take(i as int).push(id));
            }
            match players.remove(&id) {
                None => {
                    proof {
                        assert(!raw_before.contains_key(id));
                        assert(players@ =~= raw_before);
                        assert(!g.players.contains_key(id));
                    }
                },
                Some(mut info) => {
                    let ghost old_iv = info@;
                    assert(raw_before.contains_key(id) && raw_before[id] == info);
                    assert(before[id] == old_iv);
                    assert(before.dom().contains(id));
                    assert(g.players.contains_key(id));
                    assert(old_iv == g.players[id]);
                    if info.deletion_time.is_none() || vec_contains(negative_times, id) {
                        info.mark_deleted(current_time.clone());
                    }
                    let ghost iv = info@;
                    assert(iv == fin[id]);
                    players.insert(id, info);
                    assert(players_view(players@) =~= before.insert(id, iv));
                    assert forall|k: i32| #[trigger] g.players.contains_key(k) implies players_view(players@)[k] == (
                        if ids@.take(i + 1).contains(k) {
                            fin[k]
                        } else {
                            g.players[k]
                        }) by {
                        if k != id {
                            assert(ids@.take(i + 1).contains(k) == ids@.take(i as int).contains(k));
                        } else {
                            assert(ids@.take(i + 1)[i as int] == id);
                        }
                    }
                },
            }
            i = i + 1;
        }
        proof {
            assert(ids@.take(ids@.len() as int) =~= ids@);
            assert(players_view(players@) =~= fin);
        }
        ParsingResult { players, weapon_stats }
    }
}

/// When the reading ends every tracked pilot has left: at the time the
/// pilot was seen leaving, unless that time is negative, or else at the last
/// time mark; nothing else about the pilot changes, and no pilot is added or
/// dropped.
pub proof fn lemma_finished_players_left(g: GameModel, negative: Set<i32>)
    ensures
        finished_players(g, negative).dom() == g.players.dom(),
        forall|id: i32| #[trigger]
            finished_players(g, negative).contains_key(id) ==> {
                let before = g.players[id];
                let after = finished_players(g, negative)[id];
                &&& after.deletion_time is Some
                &&& before.deletion_time is Some && !negative.contains(id) ==> after.deletion_time
                    == before.deletion_time
                &&& before.deletion_time is None || negative.contains(id) ==> after.deletion_time
                    == Some(g.current_time)
                &&& after.name == before.name && after.vehicle == before.vehicle
                &&& after.creation_time == before.creation_time
                &&& after.time_in_game == before.time_in_game
            },
{
    assert(finished_players(g, negative).dom() =~= g.players.dom());
}

/// What a reading yields credits weapons only to its tracked pilots: every
/// table belongs to a pilot of the result, holds at least one weapon, and
/// counts every weapon at least once.
pub proof fn lemma_finished_tables_tracked(g: GameModel, negative: Set<i32>)
    requires
        g.wf(),
    ensures
        weapon_tables_valid(g.weapon_stats, finished_players(g, negative).dom()),
{
    assert(finished_players(g, negative).dom() =~= g.players.dom());
}

/// No count of `stats` for a pilot of `ids` is at its upper bound for
/// `weapon`.
pub open spec fn room_to_count(
    stats: Map<i32, Map<Seq<char>, i32>>,
    ids: Set<i32>,
    weapon: Seq<char>,
) -> bool {
    forall|id: i32|
        ids.contains(id) && #[trigger] table_of(stats, id).contains_key(weapon) ==> table_of(stats, id)[weapon]
            < i32::MAX
}

proof fn lemma_push_contains(s: Seq<i32>, x: i32, k: i32)
    ensures
        s.push(x).contains(k) <==> (s.contains(k) || k == x),
{
    if k == x {
        assert(s.push(x)[s.len() as int] == x);
    }
    if s.contains(k) {
        let j = choose|j: int| 0 <= j < s.len() && s[j] == k;
        assert(s.push(x)[j] == k);
    }
    if s.push(x).contains(k) {
        let j = choose|j: int| 0 <= j < s.len() + 1 && s.push(x)[j] == k;
        if j < s.len() {
            assert(s[j] == k);
        }
    }
}

/// Crediting a launch to tracked pilots keeps the weapon tables valid.
pub proof fn lemma_credited_all_valid(
    stats: Map<i32, Map<Seq<char>, i32>>,
    ids: Set<i32>,
    weapon: Seq<char>,
    owners: Set<i32>,
)
    requires
        weapon_tables_valid(stats, owners),
        ids.subset_of(owners),
        room_to_count(stats, ids, weapon),
    ensures
        weapon_tables_valid(credited_all(stats, ids, weapon), owners),
{
    let m = credited_all(stats, ids, weapon);
    assert forall|id: i32| #[trigger] m.contains_key(id) implies exists|w: Seq<char>| #[trigger] m[id].contains_key(w) by {
        if ids.contains(id) {
            assert(m[id].contains_key(weapon));
        } else {
            let w = choose|w: Seq<char>| #[trigger] stats[id].contains_key(w);
            assert(m[id].contains_key(w));
        }
    }
    assert forall|id: i32, w: Seq<char>| #[trigger] m.contains_key(id) && #[trigger] m[id].contains_key(w) implies m[id][w]
        >= 1 by {
        if ids.contains(id) && stats.contains_key(id) && w != weapon {
            assert(stats[id].contains_key(w));
        }
        if ids.contains(id) && stats.contains_key(id) && w == weapon && stats[id].contains_key(w) {
            assert(table_of(stats, id).contains_key(weapon));
        }
    }
}

impl GameState {
    /// Credits one launch of `weapon` once to each tracked pilot among
    /// `close`; ids in `close` that are not tracked are passed over.
    ///
    /// `close` holds the pilots within the counting distance of the launch:
    /// distances are floating point, so the caller selects them.
    pub fn credit_launch(&mut self, weapon: &str, close: &Vec<i32>)
        requires
            old(self).wf(),
            room_to_count(
                old(self)@.weapon_stats,
                close@.to_set().intersect(old(self)@.players.dom()),
                weapon@,
            ),
        ensures
            final(self).wf(),
            final(self)@ == (GameModel {
                weapon_stats: credited_all(
                    old(self)@.weapon_stats,
                    close@.to_set().intersect(old(self)@.players.dom()),
                    weapon@,
                ),
                ..old(self)@
            }),
    {
        let ghost pre = self@;
        let ghost w = weapon@;
        let ghost target = close@.to_set().intersect(pre.players.dom());
        let mut done: Vec<i32> = Vec::new();
        let mut i: usize = 0;
        assert(credited_all(pre.weapon_stats, done@.to_set(), w) =~= pre.weapon_stats);
        while i < close.len()
            invariant
                i <= close@.len(),
                pre.wf(),
                target == close@.to_set().intersect(pre.players.dom()),
                room_to_count(pre.weapon_stats, target, w),
                w == weapon@,
                self@ == (GameModel {
                    weapon_stats: credited_all(pre.weapon_stats, done@.to_set(), w),
                    ..pre
                }),
                forall|id: i32|
                    #[trigger] done@.contains(id) <==> (close@.take(i as int).contains(id)
                        && pre.players.contains_key(id)),
            decreases close@.len() - i,
        {
            let id = close[i];
            let ghost before_done = done@;
            proof {
                assert(close@.take(i + 1) =~= close@.take(i as int).push(id));
            }
            assert(self.players@.dom() =~= pre.players.dom());
            if self.players.contains_key(&id) && !vec_contains(&done, id) {
                let ghost d = done@.to_set();
                let ghost cur = self@.weapon_stats;
                proof {
                    assert(target.contains(id)) by {
                        assert(close@.contains(id)) by {
                            assert(close@[i as int] == id);
                        }
                    }
                    assert(!d.contains(id));
                    assert(table_of(cur, id) == table_of(pre.weapon_stats, id));
                }
                increment_weapon_counter(&mut self.weapon_stats, id, weapon);
                done.push(id);
                proof {
                    assert(done@ == before_done.push(id));
                    assert forall|k: i32| done@.contains(k) <==> (before_done.contains(k) || k == id) by {
                        lemma_push_contains(before_done, id, k);
                    }
                    assert(done@.to_set() =~= d.insert(id));
                    assert(credited(cur, id, w) =~= credited_all(pre.weapon_stats, d.insert(id), w));
                    assert forall|k: i32|
                        #[trigger] done@.contains(k) <==> (close@.take(i + 1).contains(k)
                            && pre.players.contains_key(k)) by {
                        assert(done@.contains(k) <==> (before_done.contains(k) || k == id));
                        lemma_push_contains(close@.take(i as int), id, k);
                    }
                }
            } else {
                proof {
                    assert forall|k: i32|
                        #[trigger] done@.contains(k) <==> (close@.take(i + 1).contains(k)
                            && pre.players.contains_key(k)) by {
                        lemma_push_contains(close@.take(i as int), id, k);
                        if k == id && pre.players.contains_key(k) {
                            assert(done@.contains(k));
                        }
                    }
                }
            }
            i = i + 1;
        }
        proof {
            assert(close@.take(close@.len() as int) =~= close@);
            assert(done@.to_set() =~= target);
            lemma_credited_all_valid(pre.weapon_stats, target, w, pre.players.dom());
        }
    }
}

// ---------------------------------------------------------------------------
// Counting launches over many calls
// ---------------------------------------------------------------------------

/// The weapon tables after crediting each `(pilot, weapon)` of `calls`, in
/// order, one call of [`increment_weapon_counter`] each.
pub open spec fn credit_calls(
    stats: Map<i32, Map<Seq<char>, i32>>,
    calls: Seq<(i32, Seq<char>)>,
) -> Map<i32, Map<Seq<char>, i32>>
    decreases calls.len(),
{
    if calls.len() == 0 {
        stats
    } else {
        credited(credit_calls(stats, calls.drop_last()), calls.last().0, calls.last().1)
    }
}

/// How many of `calls` are `c`.
pub open spec fn occurrences(calls: Seq<(i32, Seq<char>)>, c: (i32, Seq<char>)) -> nat
    decreases calls.len(),
{
    if calls.len() == 0 {
        0
    } else {
        occurrences(calls.drop_last(), c) + if calls.last() == c {
            1nat
        } else {
            0nat
        }
    }
}

/// The count of `weapon` for pilot `id`, 0 if there is none.
pub open spec fn count_of(stats: Map<i32, Map<Seq<char>, i32>>, id: i32, weapon: Seq<char>) -> int {
    if stats.contains_key(id) && stats[id].contains_key(weapon) {
        stats[id][weapon] as int
    } else {
        0
    }
}

/// Starting from no tables, the count of each weapon for each pilot is the
/// number of calls that credited that weapon to that pilot, whatever the
/// order of the calls, as long as no count reaches `i32::MAX`.
pub proof fn lemma_credit_calls_count(calls: Seq<(i32, Seq<char>)>)
    requires
        forall|id: i32, weapon: Seq<char>| #[trigger] occurrences(calls, (id, weapon)) < i32::MAX,
    ensures
        forall|id: i32, weapon: Seq<char>|
            #[trigger] count_of(credit_calls(Map::empty(), calls), id, weapon) == occurrences(
                calls,
                (id, weapon),
            ),
    decreases calls.len(),
{
    if calls.len() > 0 {
        let init = calls.drop_last();
        assert forall|id: i32, weapon: Seq<char>| #[trigger] occurrences(init, (id, weapon)) < i32::MAX by {
            assert(occurrences(init, (id, weapon)) <= occurrences(calls, (id, weapon)));
        }
        lemma_credit_calls_count(init);
        let prev = credit_calls(Map::empty(), init);
        let (cid, cw) = calls.last();
        assert forall|id: i32, weapon: Seq<char>|
            #[trigger] count_of(credit_calls(Map::empty(), calls), id, weapon) == occurrences(
                calls,
                (id, weapon),
            ) by {
            assert(count_of(prev, id, weapon) == occurrences(init, (id, weapon)));
            assert(count_of(prev, cid, cw) == occurrences(init, (cid, cw)));
            assert(occurrences(init, (cid, cw)) < occurrences(calls, (cid, cw)));
            assert(occurrences(calls, (cid, cw)) < i32::MAX);
            if id == cid && weapon == cw {
                assert(calls.last() == (id, weapon));
            } else {
                assert(calls.last() != (id, weapon));
            }
        }
    }
}

// ---------------------------------------------------------------------------
// A whole reading
// ---------------------------------------------------------------------------

/// The state after reading `lines` from `g`, where a weapon launch on line
/// `i` is credited to the tracked pilots among `close[i]` (the pilots that
/// the caller found within the counting distance). `None` when a line
/// faults or a count would go past `i32::MAX`; reading stops there.
pub open spec fn reading(
    g: GameModel,
    whitelist: Seq<Seq<char>>,
    lines: Seq<Seq<char>>,
    close: Seq<Seq<i32>>,
) -> Option<GameModel>
    decreases lines.len(),
{
    if lines.len() == 0 {
        Some(g)
    } else {
        match reading(g, whitelist, lines.drop_last(), close) {
            None => None,
            Some(h) => match line_effect(h, whitelist, lines.last()) {
                Err(_) => None,
                Ok((h2, None)) => Some(h2),
                Ok((h2, Some(launch))) => {
                    let ids = close[lines.len() - 1].to_set().intersect(h2.players.dom());
                    if room_to_count(h2.weapon_stats, ids, launch.weapon) {
                        Some(
                            GameModel {
                                weapon_stats: credited_all(h2.weapon_stats, ids, launch.weapon),
                                ..h2
                            },
                        )
                    } else {
                        None
                    }
                },
            },
        }
    }
}

/// A whole reading keeps the state well formed (so weapons are credited
/// only to tracked pilots, each table non-empty with counts of at least 1)
/// and forgets no pilot, tracked or remembered.
pub proof fn lemma_reading_preserves_wf(
    g: GameModel,
    whitelist: Seq<Seq<char>>,
    lines: Seq<Seq<char>>,
    close: Seq<Seq<i32>>,
)
    requires
        g.wf(),
        reading(g, whitelist, lines, close) is Some,
    ensures
        reading(g, whitelist, lines, close)->0.wf(),
        g.players.dom().subset_of(reading(g, whitelist, lines, close)->0.players.dom()),
        g.partial_players.dom().subset_of(
            reading(g, whitelist, lines, close)->0.partial_players.dom(),
        ),
    decreases lines.len(),
{
    if lines.len() > 0 {
        let init = lines.drop_last();
        lemma_reading_preserves_wf(g, whitelist, init, close);
        let h = reading(g, whitelist, init, close)->0;
        lemma_line_effect_preserves_wf(h, whitelist, lines.last());
        lemma_line_effect_keeps_pilots(h, whitelist, lines.last());
        let (h2, action) = line_effect(h, whitelist, lines.last())->Ok_0;
        if let Some(launch) = action {
            let ids = close[lines.len() - 1].to_set().intersect(h2.players.dom());
            lemma_credited_all_valid(h2.weapon_stats, ids, launch.weapon, h2.players.dom());
        }
    }
}

/// The end of a whole reading credits weapons only to pilots of its
/// result: every table belongs to a pilot there, holds at least one weapon,
/// and counts each at least once.
pub proof fn lemma_reading_result_tables_tracked(
    whitelist: Seq<Seq<char>>,
    lines: Seq<Seq<char>>,
    close: Seq<Seq<i32>>,
    negative: Set<i32>,
)
    requires
        reading(GameModel::initial(), whitelist, lines, close) is Some,
    ensures
        weapon_tables_valid(
            reading(GameModel::initial(), whitelist, lines, close)->0.weapon_stats,
            finished_players(reading(GameModel::initial(), whitelist, lines, close)->0, negative).dom(),
        ),
{
    let g = GameModel::initial();
    assert(g.wf()) by {
        lemma_single_digit_literal('0');
        assert(g.players.dom() =~= g.positions.dom());
    }
    lemma_reading_preserves_wf(g, whitelist, lines, close);
    lemma_finished_tables_tracked(reading(g, whitelist, lines, close)->0, negative);
}

} // verus!

verus! {

/// `.zip.acmi`
pub open spec fn zipped_suffix() -> Seq<char> {
    seq!['.', 'z', 'i', 'p', '.', 'a', 'c', 'm', 'i']
}

/// Whether a recording's path names a zipped recording: it ends with
/// `.zip.acmi`.
pub fn is_zipped_recording(path: &str) -> (r: bool)
    ensures
        r == (path@.len() >= zipped_suffix().len() && has_at(
            path@,
            path@.len() - zipped_suffix().len(),
            zipped_suffix(),
        )),
{
    let s = chars_of(path);
    let suffix: &[char] = &['.', 'z', 'i', 'p', '.', 'a', 'c', 'm', 'i'];
    assert(suffix@ =~= zipped_suffix());
    if s.len() < 9 {
        return false;
    }
    matches_at(&s, s.len() - 9, suffix)
}

} // verus!
