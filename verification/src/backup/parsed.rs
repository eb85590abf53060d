//! The parse results a backup carries, and the rules they must meet: one
//! profile per tool, layers numbered from zero, and per-tool lengths that
//! never shrink from layer to layer nor pass the tool's total.
//!
//! Lengths and other measures are carried as whole billionths of their unit
//! (`Some(n)` stands for `n / 10^9`); `None` stands for a stored number that
//! is not finite.
use crate::error::AppError;
use vstd::prelude::*;

verus! {

/// The slack, in billionths of a millimetre, allowed when lengths are compared.
pub const LENGTH_SLACK: i64 = 1;

/// A filament profile of a parse: its tool and its physical constants.
#[derive(Debug, Clone)]
pub struct ProfileRecord {
    pub tool: u8,
    pub diameter_mm: Option<i64>,
    pub density_g_cm3: Option<i64>,
}

/// One layer of a parse: its number and, per tool in ascending order, the
/// length extruded up to and including it.
#[derive(Debug, Clone)]
pub struct LayerRecord {
    pub layer: u32,
    pub cumulative_mm: Vec<(u8, Option<i64>)>,
}

/// The G-code part of a parse.
#[derive(Debug, Clone)]
pub struct GcodeRecord {
    pub layers: Vec<LayerRecord>,
    pub totals_mm: Vec<(u8, Option<i64>)>,
    pub max_layer: u32,
}

/// A parse of one plate: its profiles and its G-code.
#[derive(Debug, Clone)]
pub struct ParsedRecord {
    pub filaments: Vec<ProfileRecord>,
    pub gcode: GcodeRecord,
}

/// A plate of a cached project parse.
#[derive(Debug, Clone)]
pub struct ProjectPlateRecord {
    pub plate_index: u32,
    pub parsed: ParsedRecord,
}

/// A cached parse: one plate from an older version, or a whole project.
#[derive(Debug, Clone)]
pub enum CachedParseRecord {
    Legacy(ParsedRecord),
    Project { version: u8, plates: Vec<ProjectPlateRecord> },
}

/// A per-tool table as a map keeps it: tools strictly ascending.
pub open spec fn tools_ascending(m: Seq<(u8, Option<i64>)>) -> bool {
    forall|a: int, b: int| 0 <= a < b < m.len() ==> (#[trigger] m[a]).0 < (#[trigger] m[b]).0
}

/// Every per-tool table of a parse is kept as a map keeps it.
pub open spec fn parsed_wf(p: ParsedRecord) -> bool {
    &&& tools_ascending(p.gcode.totals_mm@)
    &&& forall|i: int|
        0 <= i < p.gcode.layers@.len() ==> tools_ascending(
            (#[trigger] p.gcode.layers@[i]).cumulative_mm@,
        )
}

pub open spec fn cached_parse_wf(c: CachedParseRecord) -> bool {
    match c {
        CachedParseRecord::Legacy(p) => parsed_wf(p),
        CachedParseRecord::Project { version, plates } => forall|i: int|
            0 <= i < plates@.len() ==> parsed_wf((#[trigger] plates@[i]).parsed),
    }
}

/// The value a measure stands for, taking a number that is not finite as zero.
pub open spec fn amount(v: Option<i64>) -> int {
    match v {
        Some(x) => x as int,
        None => 0,
    }
}

pub open spec fn finite_nonnegative(v: Option<i64>) -> bool {
    v matches Some(x) && x >= 0
}

pub open spec fn finite_positive(v: Option<i64>) -> bool {
    v matches Some(x) && x > 0
}

/// Whether a per-tool table has an entry for `tool`.
pub open spec fn has_key(m: Seq<(u8, Option<i64>)>, tool: u8) -> bool {
    exists|k: int| 0 <= k < m.len() && (#[trigger] m[k]).0 == tool
}

/// The value a per-tool table gives `tool` (its first entry for it), zero where it has none.
pub open spec fn value_of(m: Seq<(u8, Option<i64>)>, tool: u8) -> int
    decreases m.len(),
{
    if m.len() == 0 {
        0
    } else if m[0].0 == tool {
        amount(m[0].1)
    } else {
        value_of(m.drop_first(), tool)
    }
}

/// The length of `tool` at the last layer before `i` that names it, zero if none does.
pub open spec fn previous_value(layers: Seq<LayerRecord>, i: int, tool: u8) -> int
    decreases i,
{
    if i <= 0 {
        0
    } else if has_key(layers[i - 1].cumulative_mm@, tool) {
        value_of(layers[i - 1].cumulative_mm@, tool)
    } else {
        previous_value(layers, i - 1, tool)
    }
}

pub open spec fn profiles_have_tool(f: Seq<ProfileRecord>, tool: u8) -> bool {
    exists|k: int| 0 <= k < f.len() && (#[trigger] f[k]).tool == tool
}

/// The profiles: at least one, no tool twice, positive finite constants.
pub open spec fn profiles_ok(f: Seq<ProfileRecord>) -> bool {
    &&& f.len() > 0
    &&& forall|a: int, b: int| 0 <= a < b < f.len() ==> (#[trigger] f[a]).tool != (#[trigger] f[b]).tool
    &&& forall|k: int|
        0 <= k < f.len() ==> finite_positive((#[trigger] f[k]).diameter_mm) && finite_positive(
            f[k].density_g_cm3,
        )
}

/// A per-tool table names only tools with a profile and holds only finite, non-negative lengths.
pub open spec fn table_ok(m: Seq<(u8, Option<i64>)>, f: Seq<ProfileRecord>) -> bool {
    forall|k: int|
        0 <= k < m.len() ==> profiles_have_tool(f, (#[trigger] m[k]).0) && finite_nonnegative(m[k].1)
}

/// The layers are numbered 0, 1, ... and there are exactly `max_layer` of them.
pub open spec fn layers_ok(g: GcodeRecord, f: Seq<ProfileRecord>) -> bool {
    &&& g.max_layer as int == g.layers@.len()
    &&& forall|i: int|
        0 <= i < g.layers@.len() ==> (#[trigger] g.layers@[i]).layer as int == i && table_ok(
            g.layers@[i].cumulative_mm@,
            f,
        )
    &&& table_ok(g.totals_mm@, f)
}

/// No tool's length falls (beyond the slack) below what an earlier layer
/// recorded, nor rises above the tool's total.
pub open spec fn lengths_monotone(g: GcodeRecord) -> bool {
    forall|i: int, k: int|
        0 <= i < g.layers@.len() && 0 <= k < g.layers@[i].cumulative_mm@.len() ==> {
            let e = #[trigger] g.layers@[i].cumulative_mm@[k];
            &&& !(amount(e.1) + LENGTH_SLACK < previous_value(g.layers@, i, e.0))
            &&& !(amount(e.1) > value_of(g.totals_mm@, e.0) + LENGTH_SLACK)
        }
}

/// A parse a backup may restore.
pub open spec fn parsed_ok(p: ParsedRecord) -> bool {
    &&& profiles_ok(p.filaments@)
    &&& layers_ok(p.gcode, p.filaments@)
    &&& lengths_monotone(p.gcode)
}

/// A cached parse a backup may restore: a sound legacy parse, or a version 2
/// project with at least one plate, plate numbers non-zero and distinct,
/// and every plate's parse sound.
pub open spec fn cached_parse_ok(c: CachedParseRecord) -> bool {
    match c {
        CachedParseRecord::Legacy(p) => parsed_ok(p),
        CachedParseRecord::Project { version, plates } => {
            &&& version == 2
            &&& plates@.len() > 0
            &&& forall|i: int|
                0 <= i < plates@.len() ==> (#[trigger] plates@[i]).plate_index != 0 && parsed_ok(
                    plates@[i].parsed,
                )
            &&& forall|a: int, b: int|
                0 <= a < b < plates@.len() ==> (#[trigger] plates@[a]).plate_index != (
                #[trigger] plates@[b]).plate_index
        }
    }
}

fn profiles_check(f: &Vec<ProfileRecord>) -> (r: bool)
    ensures
        r == profiles_ok(f@),
{
    if f.len() == 0 {
        return false;
    }
    let mut j: usize = 0;
    while j < f.len()
        invariant
            0 < f@.len(),
            j <= f@.len(),
            forall|a: int, b: int| 0 <= a < b < j ==> (#[trigger] f@[a]).tool != (#[trigger] f@[b]).tool,
            forall|k: int|
                0 <= k < j ==> finite_positive((#[trigger] f@[k]).diameter_mm) && finite_positive(
                    f@[k].density_g_cm3,
                ),
        decreases f.len() - j,
    {
        let d_ok = match f[j].diameter_mm {
            Some(d) => d > 0,
            None => false,
        };
        let g_ok = match f[j].density_g_cm3 {
            Some(d) => d > 0,
            None => false,
        };
        if !d_ok || !g_ok {
            assert(!finite_positive(f@[j as int].diameter_mm) || !finite_positive(
                f@[j as int].density_g_cm3,
            ));
            return false;
        }
        let mut i: usize = 0;
        while i < j
            invariant
                i <= j < f@.len(),
                forall|a: int| 0 <= a < i ==> f@[a].tool != f@[j as int].tool,
            decreases j - i,
        {
            if f[i].tool == f[j].tool {
                assert(f@[i as int].tool == f@[j as int].tool);
                return false;
            }
            i = i + 1;
        }
        j = j + 1;
    }
    true
}

pub(crate) fn has_profile(f: &Vec<ProfileRecord>, tool: u8) -> (r: bool)
    ensures
        r == profiles_have_tool(f@, tool),
{
    let mut i: usize = 0;
    while i < f.len()
        invariant
            i <= f@.len(),
            forall|k: int| 0 <= k < i ==> f@[k].tool != tool,
        decreases f.len() - i,
    {
        if f[i].tool == tool {
            assert(f@[i as int].tool == tool);
            return true;
        }
        i = i + 1;
    }
    false
}

fn table_check(m: &Vec<(u8, Option<i64>)>, f: &Vec<ProfileRecord>) -> (r: bool)
    ensures
        r == table_ok(m@, f@),
{
    let mut i: usize = 0;
    while i < m.len()
        invariant
            i <= m@.len(),
            forall|k: int|
                0 <= k < i ==> profiles_have_tool(f@, (#[trigger] m@[k]).0) && finite_nonnegative(
                    m@[k].1,
                ),
        decreases m.len() - i,
    {
        let nonneg = match m[i].1 {
            Some(v) => v >= 0,
            None => false,
        };
        if !has_profile(f, m[i].0) || !nonneg {
            assert(!(profiles_have_tool(f@, m@[i as int].0) && finite_nonnegative(m@[i as int].1)));
            return false;
        }
        i = i + 1;
    }
    true
}

fn layers_check(g: &GcodeRecord, f: &Vec<ProfileRecord>) -> (r: bool)
    ensures
        r == layers_ok(*g, f@),
{
    if g.max_layer as usize != g.layers.len() {
        return false;
    }
    let mut i: usize = 0;
    while i < g.layers.len()
        invariant
            i <= g.layers@.len(),
            forall|k: int|
                0 <= k < i ==> (#[trigger] g.layers@[k]).layer as int == k && table_ok(
                    g.layers@[k].cumulative_mm@,
                    f@,
                ),
        decreases g.layers.len() - i,
    {
        let layer = &g.layers[i];
        if layer.layer as usize != i || !table_check(&layer.cumulative_mm, f) {
            assert(!(g.layers@[i as int].layer as int == i && table_ok(
                g.layers@[i as int].cumulative_mm@,
                f@,
            )));
            return false;
        }
        i = i + 1;
    }
    table_check(&g.totals_mm, f)
}

fn amount_of(v: Option<i64>) -> (r: i64)
    ensures
        r as int == amount(v),
{
    match v {
        Some(x) => x,
        None => 0,
    }
}

proof fn lemma_value_of_skip(m: Seq<(u8, Option<i64>)>, i: int, tool: u8)
    requires
        0 <= i < m.len(),
        m[i].0 != tool,
    ensures
        value_of(m.skip(i), tool) == value_of(m.skip(i + 1), tool),
{
    assert(m.skip(i).drop_first() =~= m.skip(i + 1));
}

/// The value a per-tool table gives `tool`; see `value_of`.
fn table_value(m: &Vec<(u8, Option<i64>)>, tool: u8) -> (r: i64)
    ensures
        r as int == value_of(m@, tool),
        has_key(m@, tool) || r == 0,
{
    let mut i: usize = 0;
    assert(m@.skip(0) =~= m@);
    while i < m.len()
        invariant
            i <= m@.len(),
            value_of(m@.skip(i as int), tool) == value_of(m@, tool),
            forall|k: int| 0 <= k < i ==> (#[trigger] m@[k]).0 != tool,
        decreases m.len() - i,
    {
        if m[i].0 == tool {
            assert(m@.skip(i as int)[0] == m@[i as int]);
            return amount_of(m[i].1);
        }
        proof {
            lemma_value_of_skip(m@, i as int, tool);
        }
        i = i + 1;
    }
    assert(m@.skip(i as int).len() == 0);
    0
}

proof fn lemma_value_of_unique(m: Seq<(u8, Option<i64>)>, k: int)
    requires
        tools_ascending(m),
        0 <= k < m.len(),
    ensures
        value_of(m, m[k].0) == amount(m[k].1),
    decreases k,
{
    if k > 0 {
        assert(m[0].0 < m[k].0);
        let rest = m.drop_first();
        assert(rest[k - 1] == m[k]);
        assert(tools_ascending(rest)) by {
            assert forall|a: int, b: int| 0 <= a < b < rest.len() implies (#[trigger] rest[a]).0 < (
            #[trigger] rest[b]).0 by {
                assert(rest[a] == m[a + 1]);
                assert(rest[b] == m[b + 1]);
            }
        }
        lemma_value_of_unique(rest, k - 1);
    }
}

/// Checks that lengths never fall below an earlier layer's or rise above the total.
fn lengths_check(g: &GcodeRecord) -> (r: bool)
    requires
        forall|i: int|
            0 <= i < g.layers@.len() ==> tools_ascending((#[trigger] g.layers@[i]).cumulative_mm@),
    ensures
        r == lengths_monotone(*g),
{
    let mut previous: Vec<i64> = Vec::new();
    let mut t: usize = 0;
    while t < 256
        invariant
            t <= 256,
            previous@.len() == t,
            forall|x: int| 0 <= x < t ==> previous@[x] == 0,
        decreases 256 - t,
    {
        previous.push(0);
        t = t + 1;
    }
    let ghost layers = g.layers@;
    let mut i: usize = 0;
    while i < g.layers.len()
        invariant
            i <= layers.len(),
            layers == g.layers@,
            previous@.len() == 256,
            forall|x: u8| previous@[x as int] as int == previous_value(layers, i as int, x),
            forall|i2: int|
                0 <= i2 < layers.len() ==> tools_ascending((#[trigger] layers[i2]).cumulative_mm@),
            forall|a: int, k: int|
                0 <= a < i && 0 <= k < layers[a].cumulative_mm@.len() ==> {
                    let e = #[trigger] layers[a].cumulative_mm@[k];
                    &&& !(amount(e.1) + LENGTH_SLACK < previous_value(layers, a, e.0))
                    &&& !(amount(e.1) > value_of(g.totals_mm@, e.0) + LENGTH_SLACK)
                },
        decreases layers.len() - i,
    {
        let cumulative = &g.layers[i].cumulative_mm;
        let ghost cum = cumulative@;
        let ghost before = previous@;
        let mut k: usize = 0;
        while k < cumulative.len()
            invariant
                i < layers.len(),
                layers == g.layers@,
                cum == layers[i as int].cumulative_mm@,
                cum == cumulative@,
                tools_ascending(cum),
                k <= cum.len(),
                previous@.len() == 256,
                forall|x: u8| before[x as int] as int == previous_value(layers, i as int, x),
                forall|x: u8|
                    (exists|k2: int| 0 <= k2 < k && (#[trigger] cum[k2]).0 == x) ==> previous@[x as int]
                        as int == value_of(cum, x),
                forall|x: u8|
                    !(exists|k2: int| 0 <= k2 < k && (#[trigger] cum[k2]).0 == x) ==> previous@[x as int]
                        == before[x as int],
                forall|k2: int|
                    0 <= k2 < k ==> {
                        let e = #[trigger] cum[k2];
                        &&& !(amount(e.1) + LENGTH_SLACK < previous_value(layers, i as int, e.0))
                        &&& !(amount(e.1) > value_of(g.totals_mm@, e.0) + LENGTH_SLACK)
                    },
            decreases cum.len() - k,
        {
            let tool = cumulative[k].0;
            let value = amount_of(cumulative[k].1);
            proof {
                assert(!(exists|k2: int| 0 <= k2 < k && (#[trigger] cum[k2]).0 == tool)) by {
                    if exists|k2: int| 0 <= k2 < k && (#[trigger] cum[k2]).0 == tool {
                        let k2 = choose|k2: int| 0 <= k2 < k && (#[trigger] cum[k2]).0 == tool;
                        assert(cum[k2].0 < cum[k as int].0);
                    }
                }
            }
            let last = previous[tool as usize];
            let total = table_value(&g.totals_mm, tool);
            if (value as i128) + (LENGTH_SLACK as i128) < (last as i128) || (value as i128) > (
            total as i128) + (LENGTH_SLACK as i128) {
                proof {
                    assert(previous@[tool as int] == before[tool as int]);
                    let e = layers[i as int].cumulative_mm@[k as int];
                    assert(e == cum[k as int]);
                }
                return false;
            }
            proof {
                assert(previous@[tool as int] == before[tool as int]);
                assert(last as int == previous_value(layers, i as int, tool));
            }
            proof {
                lemma_value_of_unique(cum, k as int);
            }
            previous.set(tool as usize, value);
            proof {
                assert forall|x: u8|
                    (exists|k2: int| 0 <= k2 < k + 1 && (#[trigger] cum[k2]).0 == x) implies previous@[x
                    as int] as int == value_of(cum, x) by {
                    if x != tool {
                        let k2 = choose|k2: int| 0 <= k2 < k + 1 && (#[trigger] cum[k2]).0 == x;
                        assert(k2 < k);
                    }
                }
                assert forall|x: u8|
                    !(exists|k2: int| 0 <= k2 < k + 1 && (#[trigger] cum[k2]).0 == x) implies previous@[x
                    as int] == before[x as int] by {
                    if x == tool {
                        assert(cum[k as int].0 == x);
                    }
                }
            }
            k = k + 1;
        }
        proof {
            assert forall|x: u8| previous@[x as int] as int == previous_value(
                layers,
                i + 1,
                x,
            ) by {
                assert(k == cum.len());
                assert(layers[(i + 1) - 1] == layers[i as int]);
                if has_key(cum, x) {
                    let k2 = choose|k2: int| 0 <= k2 < cum.len() && (#[trigger] cum[k2]).0 == x;
                    assert(exists|k3: int| 0 <= k3 < k && (#[trigger] cum[k3]).0 == x);
                    assert(previous_value(layers, i + 1, x) == value_of(cum, x));
                } else {
                    assert(!(exists|k3: int| 0 <= k3 < k && (#[trigger] cum[k3]).0 == x));
                    assert(previous_value(layers, i + 1, x) == previous_value(layers, i as int, x));
                }
            }
        }
        i = i + 1;
    }
    true
}

/// Checks a parse; see `parsed_ok`. Every refusal is `InvalidFile`.
pub fn validate_parsed(parsed: &ParsedRecord) -> (r: Result<(), AppError>)
    requires
        parsed_wf(*parsed),
    ensures
        r is Ok <==> parsed_ok(*parsed),
        r matches Err(e) ==> e == AppError::InvalidFile,
{
    if !profiles_check(&parsed.filaments) || !layers_check(&parsed.gcode, &parsed.filaments)
        || !lengths_check(&parsed.gcode) {
        return Err(AppError::InvalidFile);
    }
    Ok(())
}

/// Checks a cached parse; see `cached_parse_ok`. Every refusal is `InvalidFile`.
pub fn validate_cached_parse(parsed: &CachedParseRecord) -> (r: Result<(), AppError>)
    requires
        cached_parse_wf(*parsed),
    ensures
        r is Ok <==> cached_parse_ok(*parsed),
        r matches Err(e) ==> e == AppError::InvalidFile,
{
    match parsed {
        CachedParseRecord::Legacy(p) => validate_parsed(p),
        CachedParseRecord::Project { version, plates } => {
            assert(*parsed == CachedParseRecord::Project { version: *version, plates: *plates });
            if *version != 2 || plates.len() == 0 {
                return Err(AppError::InvalidFile);
            }
            let mut j: usize = 0;
            while j < plates.len()
                invariant
                    j <= plates@.len(),
                    *parsed == (CachedParseRecord::Project { version: *version, plates: *plates }),
                    forall|i: int|
                        0 <= i < plates@.len() ==> parsed_wf((#[trigger] plates@[i]).parsed),
                    forall|i: int|
                        0 <= i < j ==> (#[trigger] plates@[i]).plate_index != 0 && parsed_ok(
                            plates@[i].parsed,
                        ),
                    forall|a: int, b: int|
                        0 <= a < b < j ==> (#[trigger] plates@[a]).plate_index != (
                        #[trigger] plates@[b]).plate_index,
                decreases plates.len() - j,
            {
                let plate = &plates[j];
                if plate.plate_index == 0 || validate_parsed(&plate.parsed).is_err() {
                    proof {
                        let ps = plates@;
                        assert(!(ps[j as int].plate_index != 0 && parsed_ok(ps[j as int].parsed)));
                        assert(!cached_parse_ok(*parsed));
                    }
                    return Err(AppError::InvalidFile);
                }
                let mut i: usize = 0;
                while i < j
                    invariant
                        i <= j < plates@.len(),
                        *parsed == (CachedParseRecord::Project { version: *version, plates: *plates }),
                        forall|a: int| 0 <= a < i ==> plates@[a].plate_index != plates@[j as int].plate_index,
                    decreases j - i,
                {
                    if plates[i].plate_index == plates[j].plate_index {
                        proof {
                            let ps = plates@;
                            assert(ps[i as int].plate_index == ps[j as int].plate_index);
                            assert(!cached_parse_ok(*parsed));
                        }
                        return Err(AppError::InvalidFile);
                    }
                    i = i + 1;
                }
                j = j + 1;
            }
            Ok(())
        },
    }
}

} // verus!
