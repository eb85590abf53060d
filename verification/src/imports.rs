//! Import decisions: whether a file stayed put while it was read, which
//! spools a sliced filament can be matched to, and when a match is certain.
use crate::domain::Confidence;
use crate::error::AppError;
use crate::parser::{preset_base, preset_base_spec};
use crate::text::{chars_of, str_eq, strip_prefix, strip_prefix_seq};
use vstd::prelude::*;

verus! {

/// Size and modification time of a file, to tell whether it changed.
#[derive(Debug, Clone, Copy, PartialEq, Eq, Structural)]
pub struct FileStability {
    pub size: u64,
    pub modified_nanos: u128,
}

impl FileStability {
    /// The file is unchanged when both its size and its modification time match.
    pub fn is_same_as(&self, other: &Self) -> (r: bool)
        ensures
            r == (self.size == other.size && self.modified_nanos == other.modified_nanos),
    {
        self.size == other.size && self.modified_nanos == other.modified_nanos
    }
}

/// How an import relates to what was imported before.
#[derive(Debug, Clone, Copy, PartialEq, Eq, Structural)]
pub enum ImportState {
    New,
    ExistingPending,
    NewPrintConfirmationRequired,
}

/// The next step of an import, from what is already known of its source.
#[derive(Debug, Clone, Copy, PartialEq, Eq, Structural)]
pub enum ImportRoute {
    /// A project of this source waits for a mapping: show it again.
    ContinuePending,
    /// This source was printed before: ask before printing it again.
    ConfirmNewPrint,
    /// The source was parsed before: build a new project from that parse.
    ProjectFromCache,
    /// Parse the source and build a new project.
    ParseAndCreate,
}

pub open spec fn is_gcode_path(path: Seq<char>) -> bool {
    crate::backup::path_extension(path) matches Some(e) && crate::text::ascii_lower_seq(e)
        == "gcode"@
}

pub open spec fn import_route_spec(
    path: Seq<char>,
    has_cached_parse: bool,
    has_pending_project: bool,
    has_project: bool,
) -> Result<ImportRoute, AppError> {
    if is_gcode_path(path) {
        Err(AppError::StandaloneGcodeProfilesRequired)
    } else if !has_cached_parse {
        Ok(ImportRoute::ParseAndCreate)
    } else if has_pending_project {
        Ok(ImportRoute::ContinuePending)
    } else if has_project {
        Ok(ImportRoute::ConfirmNewPrint)
    } else {
        Ok(ImportRoute::ProjectFromCache)
    }
}

/// Decides how a project file is imported: a bare G-code file is refused,
/// since it names no filament profiles; a source never parsed is parsed; a
/// source with a project waiting for its mapping shows that project; one
/// printed before asks for confirmation; otherwise the cached parse is used.
pub fn import_route(
    path: &str,
    has_cached_parse: bool,
    has_pending_project: bool,
    has_project: bool,
) -> (r: Result<ImportRoute, AppError>)
    ensures
        r == import_route_spec(path@, has_cached_parse, has_pending_project, has_project),
{
    let gcode = match crate::backup::extension_of(path) {
        Some(e) => crate::text::chars_eq(&crate::text::lower_chars(e), &chars_of("gcode")),
        None => false,
    };
    if gcode {
        Err(AppError::StandaloneGcodeProfilesRequired)
    } else if !has_cached_parse {
        Ok(ImportRoute::ParseAndCreate)
    } else if has_pending_project {
        Ok(ImportRoute::ContinuePending)
    } else if has_project {
        Ok(ImportRoute::ConfirmNewPrint)
    } else {
        Ok(ImportRoute::ProjectFromCache)
    }
}

/// The state a project preview reports after an import took `route`.
pub fn route_state(route: ImportRoute) -> (r: ImportState)
    ensures
        r == (match route {
            ImportRoute::ContinuePending => ImportState::ExistingPending,
            ImportRoute::ConfirmNewPrint => ImportState::NewPrintConfirmationRequired,
            _ => ImportState::New,
        }),
{
    match route {
        ImportRoute::ContinuePending => ImportState::ExistingPending,
        ImportRoute::ConfirmNewPrint => ImportState::NewPrintConfirmationRequired,
        _ => ImportState::New,
    }
}

pub open spec fn hex_digit_value(c: char) -> Option<int> {
    if '0' <= c <= '9' {
        Some(c as int - '0' as int)
    } else if 'a' <= c <= 'f' {
        Some(c as int - 'a' as int + 10)
    } else if 'A' <= c <= 'F' {
        Some(c as int - 'A' as int + 10)
    } else {
        None
    }
}

/// `u8::from_str_radix(p, 16)` for a two-character `p`: two hex digits, or
/// `+` and one hex digit.
pub open spec fn hex_pair_value(a: char, b: char) -> Option<u8> {
    if a == '+' {
        match hex_digit_value(b) {
            Some(y) => Some(y as u8),
            None => None,
        }
    } else {
        match (hex_digit_value(a), hex_digit_value(b)) {
            (Some(x), Some(y)) => Some((x * 16 + y) as u8),
            _ => None,
        }
    }
}

/// A colour `#rrggbb`: `#` and six ASCII characters read as three hex pairs.
pub open spec fn rgb_hex_spec(value: Seq<char>) -> Option<[u8; 3]> {
    match strip_prefix_seq(value, "#"@) {
        None => None,
        Some(v) => if v.len() == 6 {
            match (hex_pair_value(v[0], v[1]), hex_pair_value(v[2], v[3]), hex_pair_value(v[4], v[5])) {
                (Some(r), Some(g), Some(b)) => Some([r, g, b]),
                _ => None,
            }
        } else {
            None
        },
    }
}

fn hex_digit(c: char) -> (r: Option<u8>)
    ensures
        r matches Some(v) ==> hex_digit_value(c) == Some(v as int),
        r is None ==> hex_digit_value(c) is None,
{
    if '0' <= c && c <= '9' {
        Some((c as u32 - '0' as u32) as u8)
    } else if 'a' <= c && c <= 'f' {
        Some((c as u32 - 'a' as u32 + 10) as u8)
    } else if 'A' <= c && c <= 'F' {
        Some((c as u32 - 'A' as u32 + 10) as u8)
    } else {
        None
    }
}

fn hex_pair(a: char, b: char) -> (r: Option<u8>)
    ensures
        r == hex_pair_value(a, b),
{
    if a == '+' {
        return hex_digit(b);
    }
    match (hex_digit(a), hex_digit(b)) {
        (Some(x), Some(y)) => Some(x * 16 + y),
        _ => None,
    }
}

/// Reads a colour `#rrggbb`; see `rgb_hex_spec`.
pub fn parse_rgb_hex(value: &str) -> (r: Option<[u8; 3]>)
    ensures
        r == rgb_hex_spec(value@),
{
    let rest = match strip_prefix(value, "#") {
        Some(rest) => rest,
        None => return None,
    };
    let v = chars_of(rest);
    if v.len() != 6 {
        return None;
    }
    match (hex_pair(v[0], v[1]), hex_pair(v[2], v[3]), hex_pair(v[4], v[5])) {
        (Some(r), Some(g), Some(b)) => Some([r, g, b]),
        _ => None,
    }
}

pub open spec fn sq(x: int) -> int {
    x * x
}

pub open spec fn rgb_distance_spec(left: [u8; 3], right: [u8; 3]) -> int {
    sq(left[0] - right[0]) + sq(left[1] - right[1]) + sq(left[2] - right[2])
}

fn component_distance(a: u8, b: u8) -> (r: u32)
    ensures
        r == sq(a - b),
        r <= 65025,
{
    let d: i32 = a as i32 - b as i32;
    assert(d * d <= 65025) by (nonlinear_arith)
        requires
            -255 <= d <= 255,
    ;
    assert(d * d >= 0) by (nonlinear_arith);
    (d * d) as u32
}

/// The squared distance of two colours in RGB space.
pub fn rgb_distance_squared(left: [u8; 3], right: [u8; 3]) -> (r: u32)
    ensures
        r == rgb_distance_spec(left, right),
{
    component_distance(left[0], right[0]) + component_distance(left[1], right[1])
        + component_distance(left[2], right[2])
}

/// The farthest a loaded spool's colour may be from the sliced one and still match.
pub const MAX_COLOR_DISTANCE_SQUARED: u32 = 10_000;

/// A loaded spool as the colour match sees it: its id, its preset base and its colour.
pub open spec fn loaded_view(row: (String, String, String)) -> (Seq<char>, Seq<char>, Seq<char>) {
    (row.0@, row.1@, row.2@)
}

/// How far a loaded spool is from the sliced filament, when it can match at
/// all: same preset base, a readable colour, and close enough.
pub open spec fn candidate_distance(
    row: (Seq<char>, Seq<char>, Seq<char>),
    target: [u8; 3],
    expected_base: Seq<char>,
) -> Option<int> {
    if preset_base_spec(row.1) == expected_base {
        match rgb_hex_spec(row.2) {
            Some(color) => if rgb_distance_spec(target, color) <= MAX_COLOR_DISTANCE_SQUARED {
                Some(rgb_distance_spec(target, color))
            } else {
                None
            },
            None => None,
        }
    } else {
        None
    }
}

/// The least distance among the spools that can match.
pub open spec fn min_distance(
    rows: Seq<(Seq<char>, Seq<char>, Seq<char>)>,
    target: [u8; 3],
    base: Seq<char>,
) -> Option<int>
    decreases rows.len(),
{
    if rows.len() == 0 {
        None
    } else {
        let m = min_distance(rows.drop_last(), target, base);
        match candidate_distance(rows.last(), target, base) {
            None => m,
            Some(d) => match m {
                None => Some(d),
                Some(b) => if d < b {
                    Some(d)
                } else {
                    Some(b)
                },
            },
        }
    }
}

/// The ids of the spools at distance `m`, in order.
pub open spec fn ids_at_distance(
    rows: Seq<(Seq<char>, Seq<char>, Seq<char>)>,
    target: [u8; 3],
    base: Seq<char>,
    m: int,
) -> Seq<Seq<char>>
    decreases rows.len(),
{
    if rows.len() == 0 {
        seq![]
    } else {
        ids_at_distance(rows.drop_last(), target, base, m) + (if candidate_distance(
            rows.last(),
            target,
            base,
        ) == Some(m) {
            seq![rows.last().0]
        } else {
            seq![]
        })
    }
}

/// The nearest loaded spools: every spool that can match and lies at the
/// least distance, in the order given.
pub open spec fn nearest_spec(
    rows: Seq<(Seq<char>, Seq<char>, Seq<char>)>,
    target: [u8; 3],
    base: Seq<char>,
) -> Seq<Seq<char>> {
    match min_distance(rows, target, base) {
        None => seq![],
        Some(m) => ids_at_distance(rows, target, base, m),
    }
}

/// No spool lies closer than the least distance.
proof fn lemma_ids_below_min_empty(
    rows: Seq<(Seq<char>, Seq<char>, Seq<char>)>,
    target: [u8; 3],
    base: Seq<char>,
    d: int,
)
    requires
        match min_distance(rows, target, base) {
            None => true,
            Some(b) => d < b,
        },
    ensures
        ids_at_distance(rows, target, base, d) =~= Seq::<Seq<char>>::empty(),
        forall|i: int|
            0 <= i < rows.len() ==> (#[trigger] candidate_distance(rows[i], target, base) matches Some(
                x,
            ) ==> x > d),
    decreases rows.len(),
{
    if rows.len() > 0 {
        let init = rows.drop_last();
        lemma_ids_below_min_empty(init, target, base, d);
        assert forall|i: int| 0 <= i < rows.len() implies (#[trigger] candidate_distance(
            rows[i],
            target,
            base,
        ) matches Some(x) ==> x > d) by {
            if i < rows.len() - 1 {
                assert(rows[i] == init[i]);
            }
        }
    }
}

pub open spec fn rows_view(rows: Seq<(String, String, String)>) -> Seq<(Seq<char>, Seq<char>, Seq<char>)> {
    rows.map_values(|r: (String, String, String)| loaded_view(r))
}

pub open spec fn ids_view(v: Seq<String>) -> Seq<Seq<char>> {
    v.map_values(|s: String| s@)
}

/// The loaded spools whose colour is nearest the sliced colour `target_hex`
/// and whose preset base is that of `preset_id`; none when the sliced colour
/// cannot be read. `loaded` holds `(spool id, preset base, colour)` in slot order.
pub fn nearest_loaded_preset_base_spool_ids(
    target_hex: &str,
    preset_id: &str,
    loaded: &Vec<(String, String, String)>,
) -> (r: Vec<String>)
    ensures
        ids_view(r@) == (match rgb_hex_spec(target_hex@) {
            None => Seq::<Seq<char>>::empty(),
            Some(target) => nearest_spec(rows_view(loaded@), target, preset_base_spec(preset_id@)),
        }),
{
    let target = match parse_rgb_hex(target_hex) {
        Some(t) => t,
        None => return Vec::new(),
    };
    let expected_base = preset_base(preset_id);
    let ghost base = preset_base_spec(preset_id@);
    let ghost rows = rows_view(loaded@);
    let mut best: Option<u32> = None;
    let mut out: Vec<String> = Vec::new();
    let mut i: usize = 0;
    while i < loaded.len()
        invariant
            i <= loaded@.len(),
            rows == rows_view(loaded@),
            expected_base@ == base,
            match best {
                None => min_distance(rows.take(i as int), target, base) is None,
                Some(b) => min_distance(rows.take(i as int), target, base) == Some(b as int),
            },
            ids_view(out@) == (match min_distance(rows.take(i as int), target, base) {
                None => Seq::<Seq<char>>::empty(),
                Some(m) => ids_at_distance(rows.take(i as int), target, base, m),
            }),
        decreases loaded.len() - i,
    {
        let row = &loaded[i];
        let ghost prefix = rows.take(i as int);
        let ghost next = rows.take(i + 1);
        assert(next.drop_last() =~= prefix);
        assert(next.last() == loaded_view(*row));
        let ghost cd = candidate_distance(loaded_view(*row), target, base);
        let same_base = str_eq(preset_base(row.1.as_str()), expected_base);
        if same_base {
            if let Some(color) = parse_rgb_hex(row.2.as_str()) {
                let distance = rgb_distance_squared(target, color);
                if distance <= MAX_COLOR_DISTANCE_SQUARED {
                    assert(cd == Some(distance as int));
                    match best {
                        Some(b) => {
                            if distance > b {
                            } else if distance == b {
                                let ghost before = ids_view(out@);
                                out.push(row.0.clone());
                                assert(ids_view(out@) =~= before + seq![row.0@]);
                            } else {
                                proof {
                                    lemma_ids_below_min_empty(prefix, target, base, distance as int);
                                }
                                best = Some(distance);
                                out = Vec::new();
                                out.push(row.0.clone());
                                assert(ids_view(out@) =~= Seq::<Seq<char>>::empty() + seq![row.0@]);
                            }
                        },
                        None => {
                            proof {
                                lemma_ids_below_min_empty(prefix, target, base, distance as int);
                            }
                            best = Some(distance);
                            out = Vec::new();
                            out.push(row.0.clone());
                            assert(ids_view(out@) =~= Seq::<Seq<char>>::empty() + seq![row.0@]);
                        },
                    }
                }
            }
        }
        i = i + 1;
    }
    assert(rows.take(loaded@.len() as int) =~= rows);
    out
}

pub open spec fn base_rows_view(rows: Seq<(String, String)>) -> Seq<(Seq<char>, Seq<char>)> {
    rows.map_values(|r: (String, String)| (r.0@, r.1@))
}

/// The ids of the rows whose stored preset has the base `base`, in order.
pub open spec fn ids_with_base(rows: Seq<(Seq<char>, Seq<char>)>, base: Seq<char>) -> Seq<Seq<char>>
    decreases rows.len(),
{
    if rows.len() == 0 {
        seq![]
    } else {
        ids_with_base(rows.drop_last(), base) + (if preset_base_spec(rows.last().1) == base {
            seq![rows.last().0]
        } else {
            seq![]
        })
    }
}

/// The spools, among `rows` of `(spool id, stored preset)`, whose preset is
/// the same preset as `preset_id` for any machine.
pub fn preset_base_spool_ids(preset_id: &str, rows: &Vec<(String, String)>) -> (r: Vec<String>)
    ensures
        ids_view(r@) == ids_with_base(base_rows_view(rows@), preset_base_spec(preset_id@)),
{
    let expected = preset_base(preset_id);
    let ghost all = base_rows_view(rows@);
    let mut out: Vec<String> = Vec::new();
    let mut i: usize = 0;
    while i < rows.len()
        invariant
            i <= rows@.len(),
            all == base_rows_view(rows@),
            expected@ == preset_base_spec(preset_id@),
            ids_view(out@) == ids_with_base(all.take(i as int), expected@),
        decreases rows.len() - i,
    {
        let row = &rows[i];
        assert(all.take(i + 1).drop_last() =~= all.take(i as int));
        assert(all.take(i + 1).last() == (row.0@, row.1@));
        if str_eq(preset_base(row.1.as_str()), expected) {
            let ghost before = ids_view(out@);
            out.push(row.0.clone());
            assert(ids_view(out@) =~= before + seq![row.0@]);
        } else {
            assert(ids_view(out@) =~= ids_view(out@) + Seq::<Seq<char>>::empty());
        }
        i = i + 1;
    }
    assert(all.take(rows@.len() as int) =~= all);
    out
}

/// The candidates for a sliced filament: exact matches first, then spools of
/// the same preset base, then the nearest loaded colour, then spools recorded
/// without a preset base. The first non-empty list wins.
pub fn matching_spools(
    exact: Vec<String>,
    same_base: Vec<String>,
    nearest_loaded: Vec<String>,
    legacy: Vec<String>,
) -> (r: Vec<String>)
    ensures
        r@ == (if exact@.len() > 0 {
            exact@
        } else if same_base@.len() > 0 {
            same_base@
        } else if nearest_loaded@.len() > 0 {
            nearest_loaded@
        } else {
            legacy@
        }),
{
    if exact.len() > 0 {
        exact
    } else if same_base.len() > 0 {
        same_base
    } else if nearest_loaded.len() > 0 {
        nearest_loaded
    } else {
        legacy
    }
}

/// A single candidate is suggested with certainty; otherwise the user must choose.
pub fn suggestion(candidates: &Vec<String>) -> (r: (Option<String>, Confidence))
    ensures
        candidates@.len() == 1 ==> r.0 == Some(candidates@[0]) && r.1 == Confidence::Exact,
        candidates@.len() != 1 ==> r.0 is None && r.1 == Confidence::NeedsConfirmation,
{
    if candidates.len() == 1 {
        (Some(candidates[0].clone()), Confidence::Exact)
    } else {
        (None, Confidence::NeedsConfirmation)
    }
}

pub open spec fn distinct_tools(tools: Seq<u8>) -> bool {
    forall|i: int, j: int| 0 <= i < j < tools.len() ==> tools[i] != tools[j]
}

/// Every filament profile of a file must name a different tool.
pub fn validate_profiles(tools: &Vec<u8>) -> (r: Result<(), AppError>)
    ensures
        r is Ok <==> distinct_tools(tools@),
        r matches Err(e) ==> e == AppError::InvalidMapping,
{
    let mut seen: [bool; 256] = [false; 256];
    let mut i: usize = 0;
    while i < tools.len()
        invariant
            i <= tools@.len(),
            distinct_tools(tools@.take(i as int)),
            forall|t: int| 0 <= t < 256 ==> (#[trigger] seen@[t] <==> tools@.take(i as int).contains(t as u8)),
        decreases tools.len() - i,
    {
        let t = tools[i];
        if seen[t as usize] {
            proof {
                assert(tools@.take(i as int).contains(t));
                let k = choose|k: int| 0 <= k < i && tools@.take(i as int)[k] == t;
                assert(tools@[k] == tools@[i as int]);
            }
            return Err(AppError::InvalidMapping);
        }
        let ghost old_seen = seen@;
        seen[t as usize] = true;
        proof {
            let prev = tools@.take(i as int);
            let next = tools@.take(i + 1);
            assert(next =~= prev.push(t));
            assert forall|u: int| 0 <= u < 256 implies (#[trigger] seen@[u] <==> next.contains(
                u as u8,
            )) by {
                if u == t as int {
                    assert(next[i as int] == t);
                } else {
                    assert(seen@[u] == old_seen[u]);
                    if next.contains(u as u8) {
                        let k = choose|k: int| 0 <= k < next.len() && next[k] == u as u8;
                        assert(prev[k] == u as u8);
                    }
                    if prev.contains(u as u8) {
                        let k = choose|k: int| 0 <= k < prev.len() && prev[k] == u as u8;
                        assert(next[k] == u as u8);
                    }
                }
            }
            let ghost next = tools@.take(i + 1);
            assert forall|a: int, b: int| 0 <= a < b < i + 1 implies #[trigger] next[a]
                != #[trigger] next[b] by {
                if b == i {
                    assert(tools@.take(i as int)[a] == tools@[a]);
                    assert(tools@.take(i as int).contains(tools@[a]));
                }
            }
        }
        i = i + 1;
    }
    assert(tools@.take(tools@.len() as int) =~= tools@);
    Ok(())
}

} // verus!
