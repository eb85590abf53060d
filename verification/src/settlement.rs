//! The decisions of a settlement that do not depend on amounts: which layer
//! an outcome reads, whether the tool mapping is complete, which spools may
//! be charged, and the idempotency keys of the ledger events it writes.
use crate::error::AppError;
use crate::parser::three_mf::decimal_text;
use crate::backup::restore::{
    lemma_text_lt_irreflexive, lemma_text_lt_total, lemma_text_lt_transitive, text_less, text_lt,
};
use crate::text::str_eq;
use vstd::prelude::*;

verus! {

/// How a print ended, as far as the choice of usage goes.
#[derive(Debug, Clone, Copy, PartialEq, Eq, Structural)]
pub enum OutcomeKind {
    /// The whole print: the file's totals.
    Success,
    /// Stopped at a layer: that layer's cumulative usage.
    StoppedAt(u32),
    /// Estimated from progress: the layer at a position the caller computed.
    EstimatedAt(u64),
}

/// The usage a settlement charges.
#[derive(Debug, Clone, Copy, PartialEq, Eq, Structural)]
pub enum UsageSource {
    /// The file's totals.
    Totals,
    /// The cumulative usage of the layer at this position.
    Layer(usize),
}

/// The position of the first layer numbered `stop`.
pub open spec fn first_layer_index(layers: Seq<u32>, stop: u32) -> Option<int>
    decreases layers.len(),
{
    if layers.len() == 0 {
        None
    } else if layers[0] == stop {
        Some(0)
    } else {
        match first_layer_index(layers.drop_first(), stop) {
            Some(i) => Some(i + 1),
            None => None,
        }
    }
}

/// The usage an outcome selects. A stop layer the file lacks, or an estimate
/// for a file without layers or past its last layer, is an invalid job.
pub open spec fn usage_source_spec(layers: Seq<u32>, outcome: OutcomeKind) -> Result<UsageSource, AppError> {
    match outcome {
        OutcomeKind::Success => Ok(UsageSource::Totals),
        OutcomeKind::StoppedAt(stop) => match first_layer_index(layers, stop) {
            Some(i) => Ok(UsageSource::Layer(i as usize)),
            None => Err(AppError::InvalidJob),
        },
        OutcomeKind::EstimatedAt(index) => if index < layers.len() {
            Ok(UsageSource::Layer(index as usize))
        } else {
            Err(AppError::InvalidJob)
        },
    }
}

/// Picks the usage to charge; `layers` holds the layer numbers of the file's
/// layers in order. See `usage_source_spec`.
pub fn usage_source(layers: &Vec<u32>, outcome: OutcomeKind) -> (r: Result<UsageSource, AppError>)
    ensures
        r == usage_source_spec(layers@, outcome),
{
    match outcome {
        OutcomeKind::Success => Ok(UsageSource::Totals),
        OutcomeKind::StoppedAt(stop) => {
            let mut i: usize = 0;
            assert(layers@.skip(0) =~= layers@);
            while i < layers.len()
                invariant
                    i <= layers@.len(),
                    outcome == OutcomeKind::StoppedAt(stop),
                    first_layer_index(layers@, stop) == (match first_layer_index(
                        layers@.skip(i as int),
                        stop,
                    ) {
                        Some(k) => Some(k + i),
                        None => None,
                    }),
                decreases layers.len() - i,
            {
                let ghost rest = layers@.skip(i as int);
                assert(rest.drop_first() =~= layers@.skip(i + 1));
                assert(rest[0] == layers@[i as int]);
                if layers[i] == stop {
                    assert(first_layer_index(rest, stop) == Some(0int));
                    assert(first_layer_index(layers@, stop) == Some(i as int));
                    return Ok(UsageSource::Layer(i));
                }
                i = i + 1;
            }
            assert(layers@.skip(i as int) =~= Seq::<u32>::empty());
            Err(AppError::InvalidJob)
        },
        OutcomeKind::EstimatedAt(index) => {
            if index < layers.len() as u64 {
                Ok(UsageSource::Layer(index as usize))
            } else {
                Err(AppError::InvalidJob)
            }
        },
    }
}

/// A settlement needs exactly one mapping per filament profile.
pub fn check_mapping_count(mapping_count: usize, profile_count: usize) -> (r: Result<(), AppError>)
    ensures
        r is Ok <==> mapping_count == profile_count,
        r matches Err(e) ==> e == AppError::InvalidMapping,
{
    if mapping_count != profile_count {
        Err(AppError::InvalidMapping)
    } else {
        Ok(())
    }
}

pub open spec fn distinct_u8(s: Seq<u8>) -> bool {
    forall|i: int, j: int| 0 <= i < j < s.len() ==> s[i] != s[j]
}

/// A mapping is complete when profiles name distinct tools, every tool that
/// used filament has a profile and a mapping, and every profile is mapped.
pub open spec fn mapping_complete(profile_tools: Seq<u8>, mapped_tools: Seq<u8>, used_tools: Seq<u8>) -> bool {
    &&& distinct_u8(profile_tools)
    &&& forall|i: int|
        0 <= i < used_tools.len() ==> profile_tools.contains(#[trigger] used_tools[i])
            && mapped_tools.contains(used_tools[i])
    &&& forall|i: int| 0 <= i < profile_tools.len() ==> mapped_tools.contains(#[trigger] profile_tools[i])
}

fn contains_u8(v: &Vec<u8>, x: u8) -> (r: bool)
    ensures
        r == v@.contains(x),
{
    let mut i: usize = 0;
    while i < v.len()
        invariant
            i <= v@.len(),
            forall|k: int| 0 <= k < i ==> v@[k] != x,
        decreases v.len() - i,
    {
        if v[i] == x {
            assert(v@[i as int] == x);
            return true;
        }
        i = i + 1;
    }
    false
}

/// Checks the tool mapping of a settlement; `used_tools` are the tools that
/// used filament in the selected usage. See `mapping_complete`.
pub fn check_mapping(profile_tools: &Vec<u8>, mapped_tools: &Vec<u8>, used_tools: &Vec<u8>) -> (r: Result<(), AppError>)
    ensures
        r is Ok <==> mapping_complete(profile_tools@, mapped_tools@, used_tools@),
        r matches Err(e) ==> e == AppError::InvalidMapping,
{
    if crate::imports::validate_profiles(profile_tools).is_err() {
        return Err(AppError::InvalidMapping);
    }
    let mut i: usize = 0;
    while i < used_tools.len()
        invariant
            i <= used_tools@.len(),
            forall|k: int|
                0 <= k < i ==> profile_tools@.contains(#[trigger] used_tools@[k])
                    && mapped_tools@.contains(used_tools@[k]),
        decreases used_tools.len() - i,
    {
        let tool = used_tools[i];
        if !contains_u8(profile_tools, tool) || !contains_u8(mapped_tools, tool) {
            return Err(AppError::InvalidMapping);
        }
        i = i + 1;
    }
    let mut j: usize = 0;
    while j < profile_tools.len()
        invariant
            j <= profile_tools@.len(),
            forall|k: int| 0 <= k < j ==> mapped_tools@.contains(#[trigger] profile_tools@[k]),
        decreases profile_tools.len() - j,
    {
        if !contains_u8(mapped_tools, profile_tools[j]) {
            return Err(AppError::InvalidMapping);
        }
        j = j + 1;
    }
    Ok(())
}

/// A spool can be charged only when it exists and is not archived;
/// `status` is its stored status, when there is one.
pub fn check_spool_chargeable(status: Option<&str>) -> (r: Result<(), AppError>)
    ensures
        r is Ok <==> (status matches Some(s) && s@ != "archived"@),
        r matches Err(e) ==> e == AppError::InvalidMapping,
{
    match status {
        Some(s) => if str_eq(s, "archived") {
            Err(AppError::InvalidMapping)
        } else {
            Ok(())
        },
        None => Err(AppError::InvalidMapping),
    }
}

/// A repeated settlement returns the saved one when the outcome is the same,
/// and is refused as a duplicate otherwise.
pub fn repeat_settlement(same_outcome: bool) -> (r: Result<(), AppError>)
    ensures
        r is Ok <==> same_outcome,
        r matches Err(e) ==> e == AppError::DuplicateJob,
{
    if same_outcome {
        Ok(())
    } else {
        Err(AppError::DuplicateJob)
    }
}

fn append_number(s: &mut String, n: u32)
    ensures
        final(s)@ == old(s)@ + decimal_text(n as nat),
    decreases n,
{
    if n >= 10 {
        append_number(s, n / 10);
    }
    let d = (n % 10) as usize;
    let digits = "0123456789";
    proof {
        reveal_strlit("0123456789");
    }
    let digit = crate::text::slice_chars(digits, d, d + 1);
    assert(digit@ =~= seq![('0' as u32 + (n % 10) as nat) as char]) by {
        assert(digit@[0] == "0123456789"@[d as int]);
    }
    s.append(digit);
}

pub open spec fn event_key_spec(kind: Seq<char>, job_id: Seq<char>, version: u32, spool_id: Seq<char>) -> Seq<char> {
    kind + "-"@ + job_id + "-"@ + decimal_text(version as nat) + "-"@ + spool_id
}

fn event_key(kind: &str, job_id: &str, version: u32, spool_id: &str) -> (r: String)
    ensures
        r@ == event_key_spec(kind@, job_id@, version, spool_id@),
{
    let mut key = String::new();
    key.append(kind);
    key.append("-");
    key.append(job_id);
    key.append("-");
    append_number(&mut key, version);
    key.append("-");
    key.append(spool_id);
    assert(key@ =~= event_key_spec(kind@, job_id@, version, spool_id@));
    key
}

/// The idempotency key of the event that charges a spool for a settlement.
pub fn settlement_key(job_id: &str, version: u32, spool_id: &str) -> (r: String)
    ensures
        r@ == event_key_spec("settlement"@, job_id@, version, spool_id@),
{
    event_key("settlement", job_id, version, spool_id)
}

/// The idempotency key of the event that gives a settlement's charge back.
pub fn reversal_key(job_id: &str, version: u32, spool_id: &str) -> (r: String)
    ensures
        r@ == event_key_spec("reversal"@, job_id@, version, spool_id@),
{
    event_key("reversal", job_id, version, spool_id)
}

/// A reversal can never collide with a settlement in the ledger: their keys differ.
pub proof fn lemma_settlement_and_reversal_keys_differ(
    job_a: Seq<char>,
    version_a: u32,
    spool_a: Seq<char>,
    job_b: Seq<char>,
    version_b: u32,
    spool_b: Seq<char>,
)
    ensures
        event_key_spec("settlement"@, job_a, version_a, spool_a) != event_key_spec(
            "reversal"@,
            job_b,
            version_b,
            spool_b,
        ),
{
    reveal_strlit("settlement");
    reveal_strlit("reversal");
    let a = event_key_spec("settlement"@, job_a, version_a, spool_a);
    let b = event_key_spec("reversal"@, job_b, version_b, spool_b);
    assert(a[0] == 's');
    assert(b[0] == 'r');
}

/// What one filament profile uses of its mapped spool: the spool, the grams
/// in billionths of a gram, and the slot the spool sat in.
pub open spec fn charge_view(c: (String, i64, Option<u8>)) -> (Seq<char>, int, Option<u8>) {
    (c.0@, c.1 as int, c.2)
}

pub open spec fn charges_view(v: Seq<(String, i64, Option<u8>)>) -> Seq<(Seq<char>, int, Option<u8>)> {
    v.map_values(|c: (String, i64, Option<u8>)| charge_view(c))
}

pub open spec fn grouped_view(v: Seq<(String, i128, Option<u8>)>) -> Seq<(Seq<char>, int, Option<u8>)> {
    v.map_values(|c: (String, i128, Option<u8>)| (c.0@, c.1 as int, c.2))
}

/// The grams the charges put on `spool`; a charge of no grams puts none.
pub open spec fn total_for(charges: Seq<(Seq<char>, int, Option<u8>)>, spool: Seq<char>) -> int
    decreases charges.len(),
{
    if charges.len() == 0 {
        0
    } else {
        total_for(charges.drop_last(), spool) + if charges.last().0 == spool && charges.last().1 > 0 {
            charges.last().1
        } else {
            0
        }
    }
}

/// Some charge of grams falls on `spool`.
pub open spec fn charged(charges: Seq<(Seq<char>, int, Option<u8>)>, spool: Seq<char>) -> bool {
    exists|j: int| 0 <= j < charges.len() && (#[trigger] charges[j]).0 == spool && charges[j].1 > 0
}

/// The slot of the first charge of grams on `spool`.
pub open spec fn first_slot(charges: Seq<(Seq<char>, int, Option<u8>)>, spool: Seq<char>) -> Option<u8>
    decreases charges.len(),
{
    if charges.len() == 0 {
        None
    } else if charged(charges.drop_last(), spool) {
        first_slot(charges.drop_last(), spool)
    } else {
        charges.last().2
    }
}

/// `grouped` is one entry for each spool charged, in spool order: the grams
/// of all its charges and the slot of its first one.
pub open spec fn grouped_ok(
    charges: Seq<(Seq<char>, int, Option<u8>)>,
    grouped: Seq<(Seq<char>, int, Option<u8>)>,
) -> bool {
    &&& forall|a: int, b: int|
        0 <= a < b < grouped.len() ==> text_lt(#[trigger] grouped[a].0, #[trigger] grouped[b].0)
    &&& forall|k: int|
        0 <= k < grouped.len() ==> charged(charges, (#[trigger] grouped[k]).0) && grouped[k].1
            == total_for(charges, grouped[k].0) && grouped[k].2 == first_slot(charges, grouped[k].0)
    &&& forall|j: int|
        0 <= j < charges.len() && (#[trigger] charges[j]).1 > 0 ==> exists|k: int|
            0 <= k < grouped.len() && (#[trigger] grouped[k]).0 == charges[j].0
}

proof fn lemma_total_step(charges: Seq<(Seq<char>, int, Option<u8>)>, i: int, spool: Seq<char>)
    requires
        0 <= i < charges.len(),
    ensures
        total_for(charges.take(i + 1), spool) == total_for(charges.take(i), spool) + if charges[i].0
            == spool && charges[i].1 > 0 {
            charges[i].1
        } else {
            0
        },
        charged(charges.take(i + 1), spool) == (charged(charges.take(i), spool) || (charges[i].0
            == spool && charges[i].1 > 0)),
        first_slot(charges.take(i + 1), spool) == if charged(charges.take(i), spool) {
            first_slot(charges.take(i), spool)
        } else {
            charges[i].2
        },
{
    assert(charges.take(i + 1).drop_last() =~= charges.take(i));
    assert(charges.take(i + 1).last() == charges[i]);
    if charged(charges.take(i + 1), spool) && !charged(charges.take(i), spool) {
        let j = choose|j: int| 0 <= j < i + 1 && (#[trigger] charges.take(i + 1)[j]).0 == spool
            && charges.take(i + 1)[j].1 > 0;
        if j < i {
            assert(charges.take(i)[j] == charges[j]);
        }
    }
    if charged(charges.take(i), spool) {
        let j = choose|j: int| 0 <= j < i && (#[trigger] charges.take(i)[j]).0 == spool
            && charges.take(i)[j].1 > 0;
        assert(charges.take(i + 1)[j] == charges.take(i)[j]);
    }
    if charges[i].0 == spool && charges[i].1 > 0 {
        assert(charges.take(i + 1)[i] == charges[i]);
    }
}

pub open spec fn spools_sorted(g: Seq<(Seq<char>, int, Option<u8>)>) -> bool {
    forall|a: int, b: int| 0 <= a < b < g.len() ==> text_lt(#[trigger] g[a].0, #[trigger] g[b].0)
}

proof fn lemma_group_skip(cv: Seq<(Seq<char>, int, Option<u8>)>, i: int, g: Seq<(Seq<char>, int, Option<u8>)>)
    requires
        0 <= i < cv.len(),
        cv[i].1 <= 0,
        grouped_ok(cv.take(i), g),
    ensures
        grouped_ok(cv.take(i + 1), g),
{
    assert forall|k: int| 0 <= k < g.len() implies charged(cv.take(i + 1), (#[trigger] g[k]).0)
        && g[k].1 == total_for(cv.take(i + 1), g[k].0) && g[k].2 == first_slot(cv.take(i + 1), g[k].0) by {
        lemma_total_step(cv, i, g[k].0);
    }
    assert forall|j: int| 0 <= j < i + 1 && (#[trigger] cv.take(i + 1)[j]).1 > 0 implies exists|m: int|
        0 <= m < g.len() && (#[trigger] g[m]).0 == cv.take(i + 1)[j].0 by {
        assert(cv.take(i + 1)[j] == cv.take(i)[j]);
    }
}

proof fn lemma_group_add(
    cv: Seq<(Seq<char>, int, Option<u8>)>,
    i: int,
    g: Seq<(Seq<char>, int, Option<u8>)>,
    k0: int,
)
    requires
        0 <= i < cv.len(),
        cv[i].1 > 0,
        grouped_ok(cv.take(i), g),
        0 <= k0 < g.len(),
        g[k0].0 == cv[i].0,
    ensures
        grouped_ok(cv.take(i + 1), g.update(k0, (g[k0].0, g[k0].1 + cv[i].1, g[k0].2))),
{
    let after = g.update(k0, (g[k0].0, g[k0].1 + cv[i].1, g[k0].2));
    assert forall|k: int| 0 <= k < after.len() implies charged(cv.take(i + 1), (#[trigger] after[k]).0)
        && after[k].1 == total_for(cv.take(i + 1), after[k].0) && after[k].2 == first_slot(
        cv.take(i + 1),
        after[k].0,
    ) by {
        lemma_total_step(cv, i, after[k].0);
        if k != k0 {
            assert(g[k].0 != g[k0].0) by {
                if k < k0 {
                    assert(text_lt(g[k].0, g[k0].0));
                } else {
                    assert(text_lt(g[k0].0, g[k].0));
                }
                lemma_text_lt_irreflexive(g[k0].0);
            }
        }
    }
    assert forall|j: int| 0 <= j < i + 1 && (#[trigger] cv.take(i + 1)[j]).1 > 0 implies exists|m: int|
        0 <= m < after.len() && (#[trigger] after[m]).0 == cv.take(i + 1)[j].0 by {
        if j < i {
            assert(cv.take(i + 1)[j] == cv.take(i)[j]);
            let m = choose|m: int| 0 <= m < g.len() && (#[trigger] g[m]).0 == cv.take(i)[j].0;
            assert(after[m].0 == g[m].0);
        } else {
            assert(after[k0].0 == cv.take(i + 1)[j].0);
        }
    }
}

proof fn lemma_group_insert(
    cv: Seq<(Seq<char>, int, Option<u8>)>,
    i: int,
    g: Seq<(Seq<char>, int, Option<u8>)>,
    p: int,
)
    requires
        0 <= i < cv.len(),
        cv[i].1 > 0,
        grouped_ok(cv.take(i), g),
        0 <= p <= g.len(),
        forall|m: int| 0 <= m < g.len() ==> (#[trigger] g[m]).0 != cv[i].0,
        spools_sorted(g.insert(p, cv[i])),
    ensures
        grouped_ok(cv.take(i + 1), g.insert(p, cv[i])),
{
    let after = g.insert(p, cv[i]);
    let spool = cv[i].0;
    assert(!charged(cv.take(i), spool)) by {
        if charged(cv.take(i), spool) {
            let j = choose|j: int| 0 <= j < i && (#[trigger] cv.take(i)[j]).0 == spool && cv.take(i)[j].1 > 0;
            let m = choose|m: int| 0 <= m < g.len() && (#[trigger] g[m]).0 == cv.take(i)[j].0;
        }
    }
    assert forall|k: int| 0 <= k < after.len() implies charged(cv.take(i + 1), (#[trigger] after[k]).0)
        && after[k].1 == total_for(cv.take(i + 1), after[k].0) && after[k].2 == first_slot(
        cv.take(i + 1),
        after[k].0,
    ) by {
        lemma_total_step(cv, i, after[k].0);
        if k < p {
            assert(after[k] == g[k]);
        } else if k > p {
            assert(after[k] == g[k - 1]);
        } else {
            lemma_total_step(cv, i, spool);
            if total_for(cv.take(i), spool) != 0 {
                lemma_total_zero(cv.take(i), spool);
            }
        }
    }
    assert forall|j: int| 0 <= j < i + 1 && (#[trigger] cv.take(i + 1)[j]).1 > 0 implies exists|m: int|
        0 <= m < after.len() && (#[trigger] after[m]).0 == cv.take(i + 1)[j].0 by {
        if j < i {
            assert(cv.take(i + 1)[j] == cv.take(i)[j]);
            let m = choose|m: int| 0 <= m < g.len() && (#[trigger] g[m]).0 == cv.take(i)[j].0;
            if m < p {
                assert(after[m] == g[m]);
            } else {
                assert(after[m + 1] == g[m]);
            }
        } else {
            assert(after[p] == cv[i]);
        }
    }
}

proof fn lemma_total_zero(charges: Seq<(Seq<char>, int, Option<u8>)>, spool: Seq<char>)
    requires
        !charged(charges, spool),
    ensures
        total_for(charges, spool) == 0,
    decreases charges.len(),
{
    if charges.len() > 0 {
        assert(!charged(charges.drop_last(), spool)) by {
            if charged(charges.drop_last(), spool) {
                let j = choose|j: int| 0 <= j < charges.len() - 1 && (#[trigger] charges.drop_last()[j]).0 == spool
                    && charges.drop_last()[j].1 > 0;
                assert(charges[j] == charges.drop_last()[j]);
            }
        }
        lemma_total_zero(charges.drop_last(), spool);
        if charges.last().0 == spool && charges.last().1 > 0 {
            assert(charges[charges.len() - 1] == charges.last());
        }
    }
}

fn find_spool(out: &Vec<(String, i128, Option<u8>)>, spool: &str) -> (r: Option<usize>)
    ensures
        r matches Some(k) ==> k < out@.len() && out@[k as int].0@ == spool@,
        r is None ==> forall|m: int| 0 <= m < out@.len() ==> (#[trigger] out@[m]).0@ != spool@,
{
    let mut k: usize = 0;
    while k < out.len()
        invariant
            k <= out@.len(),
            forall|m: int| 0 <= m < k ==> (#[trigger] out@[m]).0@ != spool@,
        decreases out.len() - k,
    {
        if str_eq(out[k].0.as_str(), spool) {
            return Some(k);
        }
        k = k + 1;
    }
    None
}

/// Groups the charges of a settlement by spool, in spool order; `charges`
/// come in tool order, one for each filament profile.
pub fn group_charges(charges: &Vec<(String, i64, Option<u8>)>) -> (r: Vec<(String, i128, Option<u8>)>)
    requires
        charges@.len() < 0x1_0000_0000,
    ensures
        grouped_ok(charges_view(charges@), grouped_view(r@)),
{
    let ghost cv = charges_view(charges@);
    let mut out: Vec<(String, i128, Option<u8>)> = Vec::new();
    let mut i: usize = 0;
    assert(cv.take(0) =~= Seq::<(Seq<char>, int, Option<u8>)>::empty());
    while i < charges.len()
        invariant
            i <= charges@.len() < 0x1_0000_0000,
            cv == charges_view(charges@),
            grouped_ok(cv.take(i as int), grouped_view(out@)),
            forall|k: int| 0 <= k < out@.len() ==> 0 < (#[trigger] out@[k]).1 <= i * 0x8000_0000_0000_0000,
        decreases charges.len() - i,
    {
        let ghost before = grouped_view(out@);
        assert(cv[i as int] == charge_view(charges@[i as int]));
        let grams = charges[i].1;
        if grams <= 0 {
            proof {
                lemma_group_skip(cv, i as int, before);
            }
        } else {
            let spool = &charges[i].0;
            match find_spool(&out, spool.as_str()) {
                Some(k) => {
                    let entry = (out[k].0.clone(), out[k].1 + grams as i128, out[k].2);
                    out.set(k, entry);
                    proof {
                        lemma_group_add(cv, i as int, before, k as int);
                        assert(grouped_view(out@) =~= before.update(
                            k as int,
                            (before[k as int].0, before[k as int].1 + cv[i as int].1, before[k as int].2),
                        ));
                    }
                },
                None => {
                    let mut p: usize = 0;
                    while p < out.len() && text_less(out[p].0.as_str(), spool.as_str())
                        invariant
                            p <= out@.len(),
                            forall|m: int| 0 <= m < p ==> text_lt((#[trigger] out@[m]).0@, spool@),
                        decreases out.len() - p,
                    {
                        p = p + 1;
                    }
                    out.insert(p, (spool.clone(), grams as i128, charges[i].2));
                    proof {
                        let after = grouped_view(out@);
                        assert(after =~= before.insert(p as int, cv[i as int]));
                        assert forall|m: int| 0 <= m < before.len() implies (#[trigger] before[m]).0 != cv[i as int].0 by {
                            assert(before[m].0 == out@[if m < p { m } else { m + 1 }].0@);
                        }
                        assert forall|a: int, b: int| 0 <= a < b < after.len() implies text_lt(
                            #[trigger] after[a].0,
                            #[trigger] after[b].0,
                        ) by {
                            let s = spool@;
                            if b < p {
                                assert(after[a] == before[a] && after[b] == before[b]);
                            } else if a < p && b == p {
                                assert(after[a] == before[a]);
                            } else if a >= p + 1 {
                                assert(after[a] == before[a - 1] && after[b] == before[b - 1]);
                            } else {
                                assert(after[b] == before[b - 1]);
                                assert(before[p as int].0 != s);
                                lemma_text_lt_total(before[p as int].0, s);
                                assert(text_lt(s, before[p as int].0));
                                if b - 1 > p {
                                    lemma_text_lt_transitive(s, before[p as int].0, before[b - 1].0);
                                }
                                if a < p {
                                    assert(after[a] == before[a]);
                                    lemma_text_lt_transitive(before[a].0, s, before[b - 1].0);
                                }
                            }
                        }
                        lemma_group_insert(cv, i as int, before, p as int);
                    }
                },
            }
        }
        i = i + 1;
    }
    assert(cv.take(charges@.len() as int) =~= cv);
    out
}

/// A spool as a settlement finds it: its stored status, if it has a row, and
/// its balance in billionths of a gram.
pub open spec fn standings_view(v: Seq<(String, Option<String>, i64)>) -> Seq<(Seq<char>, Option<Seq<char>>, int)> {
    v.map_values(
        |s: (String, Option<String>, i64)|
            (
                s.0@,
                match s.1 {
                    Some(t) => Some(t@),
                    None => None,
                },
                s.2 as int,
            ),
    )
}

/// The standing of the first entry for `spool`.
pub open spec fn standing_of(st: Seq<(Seq<char>, Option<Seq<char>>, int)>, spool: Seq<char>) -> Option<(Option<Seq<char>>, int)>
    decreases st.len(),
{
    if st.len() == 0 {
        None
    } else if st[0].0 == spool {
        Some((st[0].1, st[0].2))
    } else {
        standing_of(st.drop_first(), spool)
    }
}

/// Why a spool cannot take a charge: it has no row or is archived, or its
/// balance falls short of the grams by more than a billionth.
pub open spec fn charge_error(st: Seq<(Seq<char>, Option<Seq<char>>, int)>, c: (Seq<char>, int, Option<u8>)) -> Option<AppError> {
    match standing_of(st, c.0) {
        None => Some(AppError::InvalidMapping),
        Some((status, balance)) => if !(status matches Some(t) && t != "archived"@) {
            Some(AppError::InvalidMapping)
        } else if balance + 1 < c.1 {
            Some(AppError::InsufficientFilament)
        } else {
            None
        },
    }
}

/// The error of the first charge, in order, that its spool cannot take.
pub open spec fn first_charge_error(
    st: Seq<(Seq<char>, Option<Seq<char>>, int)>,
    g: Seq<(Seq<char>, int, Option<u8>)>,
) -> Option<AppError>
    decreases g.len(),
{
    if g.len() == 0 {
        None
    } else {
        match first_charge_error(st, g.drop_last()) {
            Some(e) => Some(e),
            None => charge_error(st, g.last()),
        }
    }
}

fn standing_exec<'a>(standings: &'a Vec<(String, Option<String>, i64)>, spool: &str) -> (r: Option<&'a (String, Option<String>, i64)>)
    ensures
        match r {
            Some(x) => standing_of(standings_view(standings@), spool@) == Some(
                (
                    match x.1 {
                        Some(t) => Some(t@),
                        None => None,
                    },
                    x.2 as int,
                ),
            ),
            None => standing_of(standings_view(standings@), spool@) is None,
        },
{
    let ghost sv = standings_view(standings@);
    let mut k: usize = 0;
    assert(sv.skip(0) =~= sv);
    while k < standings.len()
        invariant
            k <= standings@.len(),
            sv == standings_view(standings@),
            standing_of(sv, spool@) == standing_of(sv.skip(k as int), spool@),
        decreases standings.len() - k,
    {
        assert(sv.skip(k as int).drop_first() =~= sv.skip(k + 1));
        if str_eq(standings[k].0.as_str(), spool) {
            return Some(&standings[k]);
        }
        k = k + 1;
    }
    None
}

/// Checks each spool of a grouped settlement, in order, against its standing.
pub fn check_charges(
    grouped: &Vec<(String, i128, Option<u8>)>,
    standings: &Vec<(String, Option<String>, i64)>,
) -> (r: Result<(), AppError>)
    ensures
        match first_charge_error(standings_view(standings@), grouped_view(grouped@)) {
            None => r is Ok,
            Some(e) => r == Err::<(), AppError>(e),
        },
{
    let ghost sv = standings_view(standings@);
    let ghost gv = grouped_view(grouped@);
    let mut k: usize = 0;
    assert(gv.take(0) =~= Seq::<(Seq<char>, int, Option<u8>)>::empty());
    while k < grouped.len()
        invariant
            k <= grouped@.len(),
            sv == standings_view(standings@),
            gv == grouped_view(grouped@),
            first_charge_error(sv, gv.take(k as int)) is None,
        decreases grouped.len() - k,
    {
        assert(gv.take(k + 1).drop_last() =~= gv.take(k as int));
        assert(gv.take(k + 1).last() == gv[k as int]);
        let entry = &grouped[k];
        let failure = match standing_exec(standings, entry.0.as_str()) {
            None => Some(AppError::InvalidMapping),
            Some(standing) => {
                let status = match &standing.1 {
                    Some(t) => Some(t.as_str()),
                    None => None,
                };
                if check_spool_chargeable(status).is_err() {
                    Some(AppError::InvalidMapping)
                } else if (standing.2 as i128) + 1 < entry.1 {
                    Some(AppError::InsufficientFilament)
                } else {
                    None
                }
            },
        };
        match failure {
            Some(e) => {
                proof {
                    lemma_charge_error_stays(sv, gv, k + 1, gv.len() as int);
                    assert(gv.take(gv.len() as int) =~= gv);
                }
                return Err(e);
            },
            None => {},
        }
        k = k + 1;
    }
    assert(gv.take(gv.len() as int) =~= gv);
    Ok(())
}

proof fn lemma_charge_error_stays(
    st: Seq<(Seq<char>, Option<Seq<char>>, int)>,
    g: Seq<(Seq<char>, int, Option<u8>)>,
    j: int,
    n: int,
)
    requires
        0 <= j <= n <= g.len(),
        first_charge_error(st, g.take(j)) is Some,
    ensures
        first_charge_error(st, g.take(n)) == first_charge_error(st, g.take(j)),
    decreases n - j,
{
    if n > j {
        lemma_charge_error_stays(st, g, j, n - 1);
        assert(g.take(n).drop_last() =~= g.take(n - 1));
    }
}

/// The charges of a settlement, one per spool in spool order, when every
/// spool can take its charge: `charges` come in tool order, one for each
/// filament profile, in billionths of a gram; `standings` tell each spool's
/// status and balance.
pub fn plan_settlement(
    charges: &Vec<(String, i64, Option<u8>)>,
    standings: &Vec<(String, Option<String>, i64)>,
) -> (r: Result<Vec<(String, i128, Option<u8>)>, AppError>)
    requires
        charges@.len() < 0x1_0000_0000,
    ensures
        exists|g: Seq<(Seq<char>, int, Option<u8>)>| grouped_ok(charges_view(charges@), g),
        forall|g: Seq<(Seq<char>, int, Option<u8>)>|
            #![trigger grouped_ok(charges_view(charges@), g)]
            grouped_ok(charges_view(charges@), g) ==> match first_charge_error(
                standings_view(standings@),
                g,
            ) {
                None => r matches Ok(v) && grouped_view(v@) == g,
                Some(e) => r == Err::<Vec<(String, i128, Option<u8>)>, AppError>(e),
            },
{
    let grouped = group_charges(charges);
    proof {
        assert forall|g: Seq<(Seq<char>, int, Option<u8>)>| grouped_ok(charges_view(charges@), g) implies g
            == grouped_view(grouped@) by {
            lemma_grouping_is_unique(charges_view(charges@), g, grouped_view(grouped@));
        }
    }
    let checked = check_charges(&grouped, standings);
    match checked {
        Ok(()) => Ok(grouped),
        Err(e) => Err(e),
    }
}

pub open spec fn text_sorted(a: Seq<Seq<char>>) -> bool {
    forall|i: int, j: int| 0 <= i < j < a.len() ==> text_lt(#[trigger] a[i], #[trigger] a[j])
}

proof fn lemma_sorted_same_members(a: Seq<Seq<char>>, b: Seq<Seq<char>>)
    requires
        text_sorted(a),
        text_sorted(b),
        forall|x: Seq<char>| a.contains(x) <==> b.contains(x),
    ensures
        a == b,
    decreases a.len(),
{
    if a.len() == 0 {
        if b.len() > 0 {
            assert(b.contains(b[0]));
        }
        assert(b.len() == 0);
        assert(a =~= b);
    } else {
        assert(a.contains(a[0]));
        assert(b.len() > 0);
        assert(b.contains(b[0]));
        let m = choose|m: int| 0 <= m < b.len() && b[m] == a[0];
        let n = choose|n: int| 0 <= n < a.len() && a[n] == b[0];
        if m > 0 {
            assert(text_lt(b[0], b[m]));
            if n > 0 {
                assert(text_lt(a[0], a[n]));
                lemma_text_lt_total(a[0], b[0]);
            } else {
                lemma_text_lt_irreflexive(a[0]);
            }
        }
        assert(a[0] == b[0]);
        let a1 = a.drop_first();
        let b1 = b.drop_first();
        assert forall|x: Seq<char>| a1.contains(x) <==> b1.contains(x) by {
            if a1.contains(x) {
                let i = choose|i: int| 0 <= i < a1.len() && a1[i] == x;
                assert(text_lt(a[0], a[i + 1]));
                lemma_text_lt_irreflexive(x);
                assert(a.contains(x));
                let j = choose|j: int| 0 <= j < b.len() && b[j] == x;
                assert(j != 0);
                assert(b1[j - 1] == x);
            }
            if b1.contains(x) {
                let i = choose|i: int| 0 <= i < b1.len() && b1[i] == x;
                assert(text_lt(b[0], b[i + 1]));
                lemma_text_lt_irreflexive(x);
                assert(b.contains(x));
                let j = choose|j: int| 0 <= j < a.len() && a[j] == x;
                assert(j != 0);
                assert(a1[j - 1] == x);
            }
        }
        assert(text_sorted(a1)) by {
            assert forall|i: int, j: int| 0 <= i < j < a1.len() implies text_lt(#[trigger] a1[i], #[trigger] a1[j]) by {
                assert(text_lt(a[i + 1], a[j + 1]));
            }
        }
        assert(text_sorted(b1)) by {
            assert forall|i: int, j: int| 0 <= i < j < b1.len() implies text_lt(#[trigger] b1[i], #[trigger] b1[j]) by {
                assert(text_lt(b[i + 1], b[j + 1]));
            }
        }
        lemma_sorted_same_members(a1, b1);
        assert(a =~= b) by {
            assert forall|i: int| 0 <= i < a.len() implies a[i] == b[i] by {
                if i > 0 {
                    assert(a[i] == a1[i - 1]);
                    assert(b[i] == b1[i - 1]);
                }
            }
        }
    }
}

pub open spec fn spool_ids(g: Seq<(Seq<char>, int, Option<u8>)>) -> Seq<Seq<char>> {
    g.map_values(|c: (Seq<char>, int, Option<u8>)| c.0)
}

/// The charges decide their grouping: two groupings of the same charges are
/// the same.
pub proof fn lemma_grouping_is_unique(
    charges: Seq<(Seq<char>, int, Option<u8>)>,
    g1: Seq<(Seq<char>, int, Option<u8>)>,
    g2: Seq<(Seq<char>, int, Option<u8>)>,
)
    requires
        grouped_ok(charges, g1),
        grouped_ok(charges, g2),
    ensures
        g1 == g2,
{
    let a = spool_ids(g1);
    let b = spool_ids(g2);
    assert(text_sorted(a)) by {
        assert forall|i: int, j: int| 0 <= i < j < a.len() implies text_lt(#[trigger] a[i], #[trigger] a[j]) by {
            assert(text_lt(g1[i].0, g1[j].0));
        }
    }
    assert(text_sorted(b)) by {
        assert forall|i: int, j: int| 0 <= i < j < b.len() implies text_lt(#[trigger] b[i], #[trigger] b[j]) by {
            assert(text_lt(g2[i].0, g2[j].0));
        }
    }
    assert forall|x: Seq<char>| a.contains(x) <==> b.contains(x) by {
        if a.contains(x) {
            let i = choose|i: int| 0 <= i < a.len() && a[i] == x;
            assert(charged(charges, g1[i].0));
            let j = choose|j: int| 0 <= j < charges.len() && (#[trigger] charges[j]).0 == x && charges[j].1 > 0;
            let m = choose|m: int| 0 <= m < g2.len() && (#[trigger] g2[m]).0 == charges[j].0;
            assert(b[m] == x);
        }
        if b.contains(x) {
            let i = choose|i: int| 0 <= i < b.len() && b[i] == x;
            assert(charged(charges, g2[i].0));
            let j = choose|j: int| 0 <= j < charges.len() && (#[trigger] charges[j]).0 == x && charges[j].1 > 0;
            let m = choose|m: int| 0 <= m < g1.len() && (#[trigger] g1[m]).0 == charges[j].0;
            assert(a[m] == x);
        }
    }
    lemma_sorted_same_members(a, b);
    assert(g1 =~= g2) by {
        assert(g1.len() == a.len() && g2.len() == b.len());
        assert forall|k: int| 0 <= k < g1.len() implies g1[k] == g2[k] by {
            assert(a[k] == b[k]);
            assert(g1[k].0 == g2[k].0);
        }
    }
}

/// A reversal event: the spool, the grams given back (billionths), the event
/// it reverses and its idempotency key.
#[derive(Debug, Clone)]
pub struct ReversalEvent {
    pub spool_id: String,
    pub delta: i128,
    pub reverses_event_id: String,
    pub idempotency_key: String,
}

/// The events that reverse a settlement of `job_id` at `version`: one per
/// settlement event, giving its grams back; none when the settlement was
/// reversed already. `settlements` hold each event's spool, id and change.
pub fn plan_reversal(
    already_reversed: bool,
    job_id: &str,
    version: u32,
    settlements: &Vec<(String, String, i64)>,
) -> (r: Option<Vec<ReversalEvent>>)
    ensures
        r is None <==> already_reversed,
        r matches Some(v) ==> v@.len() == settlements@.len() && forall|k: int|
            0 <= k < v@.len() ==> {
                let e = #[trigger] v@[k];
                let s = settlements@[k];
                &&& e.spool_id@ == s.0@
                &&& e.delta == -(s.2 as int)
                &&& e.reverses_event_id@ == s.1@
                &&& e.idempotency_key@ == event_key_spec("reversal"@, job_id@, version, s.0@)
            },
{
    if already_reversed {
        return None;
    }
    let mut out: Vec<ReversalEvent> = Vec::new();
    let mut k: usize = 0;
    while k < settlements.len()
        invariant
            k <= settlements@.len(),
            out@.len() == k,
            forall|m: int|
                0 <= m < k ==> {
                    let e = #[trigger] out@[m];
                    let s = settlements@[m];
                    &&& e.spool_id@ == s.0@
                    &&& e.delta == -(s.2 as int)
                    &&& e.reverses_event_id@ == s.1@
                    &&& e.idempotency_key@ == event_key_spec("reversal"@, job_id@, version, s.0@)
                },
        decreases settlements.len() - k,
    {
        let s = &settlements[k];
        out.push(
            ReversalEvent {
                spool_id: s.0.clone(),
                delta: -(s.2 as i128),
                reverses_event_id: s.1.clone(),
                idempotency_key: reversal_key(job_id, version, s.0.as_str()),
            },
        );
        k = k + 1;
    }
    Some(out)
}

} // verus!
