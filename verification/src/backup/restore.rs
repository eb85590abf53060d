//! How a validated backup is written back: reversals after the events they
//! undo, and the import time of a project that an older backup did not keep.
use crate::backup::snapshot::{JobRecord, LedgerRecord};
use crate::text::{chars_of, str_eq};
use vstd::prelude::*;

verus! {

pub open spec fn is_reversal(e: LedgerRecord) -> bool {
    e.event_type@ == "reversal"@
}

/// The positions below `n` of the events that are reversals (`rev`) or are
/// not, in backup order.
pub open spec fn positions_where(ledger: Seq<LedgerRecord>, n: nat, rev: bool) -> Seq<int>
    decreases n,
{
    if n == 0 {
        Seq::empty()
    } else {
        let rest = positions_where(ledger, (n - 1) as nat, rev);
        if is_reversal(ledger[n - 1]) == rev {
            rest.push(n - 1)
        } else {
            rest
        }
    }
}

/// The order in which ledger events are written back: every event that is no
/// reversal, then every reversal, each group in backup order.
pub open spec fn restore_order_spec(ledger: Seq<LedgerRecord>) -> Seq<int> {
    positions_where(ledger, ledger.len(), false) + positions_where(ledger, ledger.len(), true)
}

pub open spec fn positions_view(v: Seq<usize>) -> Seq<int> {
    v.map_values(|i: usize| i as int)
}

fn event_is_reversal(e: &LedgerRecord) -> (r: bool)
    ensures
        r == is_reversal(*e),
{
    let r = str_eq(e.event_type.as_str(), "reversal");
    proof {
        reveal_strlit("reversal");
    }
    r
}

/// The positions of the ledger events in the order they are written back:
/// first those that are no reversal, then the reversals, each in backup order,
/// so that a reversal never precedes the event it undoes.
pub fn restore_ledger_order(ledger: &Vec<LedgerRecord>) -> (r: Vec<usize>)
    ensures
        positions_view(r@) == restore_order_spec(ledger@),
{
    let mut out: Vec<usize> = Vec::new();
    let mut i: usize = 0;
    while i < ledger.len()
        invariant
            i <= ledger@.len(),
            positions_view(out@) == positions_where(ledger@, i as nat, false),
        decreases ledger.len() - i,
    {
        if !event_is_reversal(&ledger[i]) {
            let ghost before = out@;
            out.push(i);
            assert(positions_view(out@) =~= positions_view(before).push(i as int));
        }
        i = i + 1;
    }
    let ghost first = positions_view(out@);
    let mut j: usize = 0;
    while j < ledger.len()
        invariant
            j <= ledger@.len(),
            first == positions_where(ledger@, ledger@.len(), false),
            positions_view(out@) == first + positions_where(ledger@, j as nat, true),
        decreases ledger.len() - j,
    {
        if event_is_reversal(&ledger[j]) {
            let ghost before = out@;
            out.push(j);
            assert(positions_view(out@) =~= positions_view(before).push(j as int));
            assert(first + positions_where(ledger@, (j + 1) as nat, true) =~= (first
                + positions_where(ledger@, j as nat, true)).push(j as int));
        }
        j = j + 1;
    }
    out
}

proof fn lemma_positions_where(ledger: Seq<LedgerRecord>, n: nat, rev: bool)
    requires
        n <= ledger.len(),
    ensures
        forall|k: int|
            0 <= k < positions_where(ledger, n, rev).len() ==> {
                let p = #[trigger] positions_where(ledger, n, rev)[k];
                &&& 0 <= p < n
                &&& is_reversal(ledger[p]) == rev
            },
        forall|a: int, b: int|
            0 <= a < b < positions_where(ledger, n, rev).len() ==> #[trigger] positions_where(
                ledger,
                n,
                rev,
            )[a] < #[trigger] positions_where(ledger, n, rev)[b],
        forall|p: int|
            0 <= p < n && is_reversal(#[trigger] ledger[p]) == rev ==> positions_where(
                ledger,
                n,
                rev,
            ).contains(p),
    decreases n,
{
    if n > 0 {
        lemma_positions_where(ledger, (n - 1) as nat, rev);
        let rest = positions_where(ledger, (n - 1) as nat, rev);
        if is_reversal(ledger[n - 1]) == rev {
            let s = rest.push(n - 1);
            assert forall|p: int|
                0 <= p < n && is_reversal(#[trigger] ledger[p]) == rev implies s.contains(p) by {
                if p == n - 1 {
                    assert(s[rest.len() as int] == p);
                } else {
                    let k = choose|k: int| 0 <= k < rest.len() && rest[k] == p;
                    assert(s[k] == p);
                }
            }
        }
    }
}

/// Writing a ledger back touches every event exactly once, and every reversal
/// comes after every event that is none.
pub proof fn lemma_restore_order_is_a_partition(ledger: Seq<LedgerRecord>)
    ensures
        restore_order_spec(ledger).len() == ledger.len(),
        forall|p: int| 0 <= p < ledger.len() ==> restore_order_spec(ledger).contains(p),
        forall|a: int, b: int|
            0 <= a < b < restore_order_spec(ledger).len() ==> #[trigger] restore_order_spec(
                ledger,
            )[a] != #[trigger] restore_order_spec(ledger)[b],
        forall|a: int, b: int|
            0 <= a < b < restore_order_spec(ledger).len() && is_reversal(
                ledger[#[trigger] restore_order_spec(ledger)[a]],
            ) ==> is_reversal(ledger[#[trigger] restore_order_spec(ledger)[b]]),
{
    let n = ledger.len();
    let first = positions_where(ledger, n, false);
    let second = positions_where(ledger, n, true);
    let order = restore_order_spec(ledger);
    lemma_positions_where(ledger, n, false);
    lemma_positions_where(ledger, n, true);
    assert forall|p: int| 0 <= p < n implies order.contains(p) by {
        if is_reversal(ledger[p]) {
            assert(second.contains(p));
            let k = choose|k: int| 0 <= k < second.len() && second[k] == p;
            assert(order[first.len() + k] == p);
        } else {
            assert(first.contains(p));
            let k = choose|k: int| 0 <= k < first.len() && first[k] == p;
            assert(order[k] == p);
        }
    }
    assert forall|a: int, b: int| 0 <= a < b < order.len() implies #[trigger] order[a]
        != #[trigger] order[b] by {
        if b < first.len() {
            assert(first[a] < first[b]);
        } else if a >= first.len() {
            assert(second[a - first.len()] < second[b - first.len()]);
        } else {
            assert(is_reversal(ledger[first[a]]) == false);
            assert(is_reversal(ledger[second[b - first.len()]]) == true);
        }
    }
    assert forall|a: int, b: int|
        0 <= a < b < order.len() && is_reversal(ledger[#[trigger] order[a]]) implies is_reversal(
        ledger[#[trigger] order[b]],
    ) by {
        if a < first.len() {
            assert(is_reversal(ledger[first[a]]) == false);
        } else {
            assert(is_reversal(ledger[second[b - first.len()]]));
        }
    }
    lemma_partition_len(ledger, n);
}

proof fn lemma_partition_len(ledger: Seq<LedgerRecord>, n: nat)
    requires
        n <= ledger.len(),
    ensures
        positions_where(ledger, n, false).len() + positions_where(ledger, n, true).len() == n,
    decreases n,
{
    if n > 0 {
        lemma_partition_len(ledger, (n - 1) as nat);
    }
}

/// `a` sorts before `b`, character by character, a proper prefix first: the
/// order of `str`, whose UTF-8 bytes sort as their characters do.
pub open spec fn text_lt(a: Seq<char>, b: Seq<char>) -> bool
    decreases a.len(),
{
    if b.len() == 0 {
        false
    } else if a.len() == 0 {
        true
    } else if a[0] != b[0] {
        (a[0] as int) < (b[0] as int)
    } else {
        text_lt(a.drop_first(), b.drop_first())
    }
}

pub proof fn lemma_text_lt_transitive(a: Seq<char>, b: Seq<char>, c: Seq<char>)
    requires
        text_lt(a, b),
        text_lt(b, c),
    ensures
        text_lt(a, c),
    decreases a.len(),
{
    if a.len() > 0 && b.len() > 0 && c.len() > 0 && a[0] == b[0] && b[0] == c[0] {
        lemma_text_lt_transitive(a.drop_first(), b.drop_first(), c.drop_first());
    }
}

pub proof fn lemma_text_lt_irreflexive(a: Seq<char>)
    ensures
        !text_lt(a, a),
    decreases a.len(),
{
    if a.len() > 0 {
        lemma_text_lt_irreflexive(a.drop_first());
    }
}

/// Two different texts sort one way or the other, never both.
pub proof fn lemma_text_lt_total(a: Seq<char>, b: Seq<char>)
    ensures
        a != b ==> text_lt(a, b) || text_lt(b, a),
        !(text_lt(a, b) && text_lt(b, a)),
    decreases a.len(),
{
    if a.len() > 0 && b.len() > 0 && a[0] == b[0] {
        lemma_text_lt_total(a.drop_first(), b.drop_first());
        if a != b && a.drop_first() == b.drop_first() {
            assert forall|i: int| 0 <= i < a.len() implies a[i] == b[i] by {
                if i > 0 {
                    assert(a[i] == a.drop_first()[i - 1]);
                    assert(b[i] == b.drop_first()[i - 1]);
                }
            }
            assert(a =~= b);
        }
    } else if a.len() == 0 && b.len() == 0 {
        assert(a =~= b);
    } else if a.len() > 0 && b.len() > 0 {
        assert((a[0] as int) != (b[0] as int));
    }
}

/// Whether `a` sorts before `b`.
pub fn text_less(a: &str, b: &str) -> (r: bool)
    ensures
        r == text_lt(a@, b@),
{
    let x = chars_of(a);
    let y = chars_of(b);
    let mut i: usize = 0;
    assert(a@.skip(0) =~= a@);
    assert(b@.skip(0) =~= b@);
    while i < x.len() && i < y.len() && x[i] == y[i]
        invariant
            x@ == a@,
            y@ == b@,
            i <= x@.len(),
            i <= y@.len(),
            text_lt(a@, b@) == text_lt(a@.skip(i as int), b@.skip(i as int)),
        decreases x.len() - i,
    {
        assert(a@.skip(i as int).drop_first() =~= a@.skip(i + 1));
        assert(b@.skip(i as int).drop_first() =~= b@.skip(i + 1));
        i = i + 1;
    }
    if i == y.len() {
        false
    } else if i == x.len() {
        true
    } else {
        x[i] < y[i]
    }
}

/// `r` is the import time a project restored from an older backup gets: the
/// earliest creation time of the jobs printed from `hash`, or `fallback` (the
/// time the parse was cached) when no job was.
pub open spec fn imported_at_spec(
    jobs: Seq<JobRecord>,
    hash: Seq<char>,
    fallback: Seq<char>,
    r: Seq<char>,
) -> bool {
    if exists|k: int| 0 <= k < jobs.len() && (#[trigger] jobs[k]).source_hash@ == hash {
        &&& exists|k: int|
            0 <= k < jobs.len() && (#[trigger] jobs[k]).source_hash@ == hash
                && jobs[k].created_at@ == r
        &&& forall|k: int|
            0 <= k < jobs.len() && (#[trigger] jobs[k]).source_hash@ == hash ==> !text_lt(
                jobs[k].created_at@,
                r,
            )
    } else {
        r == fallback
    }
}

/// The import time of a project that an older backup only kept as a cached
/// parse: the earliest creation time of its jobs, else the parse's own.
pub fn legacy_imported_at(jobs: &Vec<JobRecord>, source_hash: &str, fallback: &str) -> (r: String)
    ensures
        imported_at_spec(jobs@, source_hash@, fallback@, r@),
{
    let mut best: Option<usize> = None;
    let mut k: usize = 0;
    while k < jobs.len()
        invariant
            k <= jobs@.len(),
            best is None ==> forall|i: int|
                0 <= i < k ==> (#[trigger] jobs@[i]).source_hash@ != source_hash@,
            best matches Some(b) ==> {
                &&& b < k
                &&& jobs@[b as int].source_hash@ == source_hash@
                &&& forall|i: int|
                    0 <= i < k && (#[trigger] jobs@[i]).source_hash@ == source_hash@
                        ==> !text_lt(jobs@[i].created_at@, jobs@[b as int].created_at@)
            },
        decreases jobs.len() - k,
    {
        let same = str_eq(jobs[k].source_hash.as_str(), source_hash);
        assert(same == (jobs@[k as int].source_hash@ == source_hash@));
        proof {
            lemma_text_lt_irreflexive(jobs@[k as int].created_at@);
        }
        if same {
            match best {
                None => {
                    best = Some(k);
                },
                Some(b) => {
                    if text_less(jobs[k].created_at.as_str(), jobs[b].created_at.as_str()) {
                        proof {
                            assert forall|i: int|
                                0 <= i < k && (#[trigger] jobs@[i]).source_hash@
                                    == source_hash@ implies !text_lt(
                                jobs@[i].created_at@,
                                jobs@[k as int].created_at@,
                            ) by {
                                if text_lt(jobs@[i].created_at@, jobs@[k as int].created_at@) {
                                    lemma_text_lt_transitive(
                                        jobs@[i].created_at@,
                                        jobs@[k as int].created_at@,
                                        jobs@[b as int].created_at@,
                                    );
                                }
                            }
                        }
                        best = Some(k);
                    }
                },
            }
        }
        k = k + 1;
    }
    match best {
        None => fallback.to_owned(),
        Some(b) => jobs[b].created_at.clone(),
    }
}

} // verus!
