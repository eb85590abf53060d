//! Printer records and the slicer's machine profiles: which names a saved
//! printer may carry, how a `;`-separated setting is read, and the chain of
//! profiles a machine profile inherits from.
use crate::error::AppError;
use crate::text::{split_pieces, split_seq, str_eq, strs_view, trim, trim_seq};
use vstd::prelude::*;

verus! {

/// `char::is_control`: the Unicode control characters, U+0000 to U+001F and U+007F to U+009F.
pub open spec fn is_control(c: char) -> bool {
    let v = c as u32;
    v <= 0x1F || (0x7F <= v && v <= 0x9F)
}

/// A name a saved printer may carry: once trimmed it is not empty, has at
/// most `maximum` characters and no control character.
pub open spec fn printer_text_ok_spec(value: Seq<char>, maximum: nat) -> bool {
    let t = trim_seq(value);
    &&& t.len() > 0
    &&& t.len() <= maximum
    &&& forall|i: int| 0 <= i < t.len() ==> !is_control(#[trigger] t[i])
}

/// Whether a name may be saved; see `printer_text_ok_spec`.
pub fn printer_text_ok(value: &str, maximum: usize) -> (r: bool)
    ensures
        r == printer_text_ok_spec(value@, maximum as nat),
{
    let t = trim(value);
    let v = crate::text::chars_of(t);
    if v.len() == 0 || v.len() > maximum {
        return false;
    }
    let mut i: usize = 0;
    while i < v.len()
        invariant
            i <= v@.len(),
            v@ == trim_seq(value@),
            forall|k: int| 0 <= k < i ==> !is_control(#[trigger] v@[k]),
        decreases v.len() - i,
    {
        let c = v[i] as u32;
        if c <= 0x1F || (0x7F <= c && c <= 0x9F) {
            assert(is_control(v@[i as int]));
            return false;
        }
        i = i + 1;
    }
    true
}

/// The names of a saved printer: a display name of at most 80 characters, a
/// model key of at most 160, a default plate of at most 120 and an AMS kind
/// of at most 80 (see `printer_text_ok_spec`).
pub open spec fn printer_texts_ok(
    display_name: Seq<char>,
    model_key: Seq<char>,
    default_plate: Seq<char>,
    ams_kind: Seq<char>,
) -> bool {
    &&& printer_text_ok_spec(display_name, 80)
    &&& printer_text_ok_spec(model_key, 160)
    &&& printer_text_ok_spec(default_plate, 120)
    &&& printer_text_ok_spec(ams_kind, 80)
}

/// Checks the names of a printer before it is saved; see `printer_texts_ok`.
pub fn validate_printer_texts(
    display_name: &str,
    model_key: &str,
    default_plate: &str,
    ams_kind: &str,
) -> (r: Result<(), AppError>)
    ensures
        r is Ok <==> printer_texts_ok(display_name@, model_key@, default_plate@, ams_kind@),
        r matches Err(e) ==> e == AppError::InvalidFile,
{
    if !printer_text_ok(display_name, 80) || !printer_text_ok(model_key, 160) || !printer_text_ok(
        default_plate,
        120,
    ) || !printer_text_ok(ams_kind, 80) {
        return Err(AppError::InvalidFile);
    }
    Ok(())
}

/// The trimmed, non-empty pieces among `pieces`, in order.
pub open spec fn nonempty_trimmed(pieces: Seq<Seq<char>>) -> Seq<Seq<char>>
    decreases pieces.len(),
{
    if pieces.len() == 0 {
        seq![]
    } else {
        let rest = nonempty_trimmed(pieces.drop_last());
        let t = trim_seq(pieces.last());
        if t.len() > 0 {
            rest.push(t)
        } else {
            rest
        }
    }
}

/// The items of a `;`-separated setting: each piece trimmed, empty ones left out.
pub open spec fn setting_items(text: Seq<char>) -> Seq<Seq<char>> {
    nonempty_trimmed(split_seq(text, ";"@))
}

pub open spec fn strings_view(v: Seq<String>) -> Seq<Seq<char>> {
    v.map_values(|s: String| s@)
}

/// Reads a `;`-separated setting; see `setting_items`.
pub fn setting_list(text: &str) -> (r: Vec<String>)
    ensures
        strings_view(r@) == setting_items(text@),
{
    proof {
        reveal_strlit(";");
    }
    let pieces = split_pieces(text, ";");
    let ghost all = strs_view(pieces@);
    let mut out: Vec<String> = Vec::new();
    let mut i: usize = 0;
    while i < pieces.len()
        invariant
            i <= pieces@.len(),
            all == strs_view(pieces@),
            strings_view(out@) == nonempty_trimmed(all.take(i as int)),
        decreases pieces.len() - i,
    {
        assert(all.take(i + 1).drop_last() =~= all.take(i as int));
        assert(all.take(i + 1).last() == pieces@[i as int]@);
        let t = trim(pieces[i]);
        if t.unicode_len() > 0 {
            let ghost before = strings_view(out@);
            out.push(t.to_owned());
            assert(strings_view(out@) =~= before.push(t@));
        }
        i = i + 1;
    }
    assert(all.take(i as int) =~= all);
    out
}

/// The first document named `name` at or after `k`.
pub open spec fn index_from(documents: Seq<(Seq<char>, Option<Seq<char>>)>, name: Seq<char>, k: int) -> Option<int>
    decreases documents.len() - k,
{
    if k < 0 || k >= documents.len() {
        None
    } else if documents[k].0 == name {
        Some(k)
    } else {
        index_from(documents, name, k + 1)
    }
}

/// The first document named `name`.
pub open spec fn document_index(documents: Seq<(Seq<char>, Option<Seq<char>>)>, name: Seq<char>) -> Option<int> {
    index_from(documents, name, 0)
}

pub open spec fn parent_of(documents: Seq<(Seq<char>, Option<Seq<char>>)>, i: int) -> Option<Seq<char>> {
    documents[i].1
}

/// The documents' names and what each inherits, as text.
pub open spec fn parents_view(documents: Seq<(String, Option<String>)>) -> Seq<(Seq<char>, Option<Seq<char>>)> {
    documents.map_values(
        |d: (String, Option<String>)|
            (
                d.0@,
                match d.1 {
                    Some(p) => Some(p@),
                    None => None,
                },
            ),
    )
}

/// The document `b` is the one that `a` inherits.
pub open spec fn inherits_from(documents: Seq<(Seq<char>, Option<Seq<char>>)>, a: int, b: int) -> bool {
    parent_of(documents, a) matches Some(p) && document_index(documents, p) == Some(b)
}

/// `chain` lists the documents from `name` up through what each inherits to
/// one that inherits nothing, none of them twice.
pub open spec fn inheritance_chain_of(
    documents: Seq<(Seq<char>, Option<Seq<char>>)>,
    name: Seq<char>,
    chain: Seq<int>,
) -> bool {
    &&& chain.len() > 0
    &&& document_index(documents, name) == Some(chain[0])
    &&& forall|a: int, b: int|
        0 <= a && b == a + 1 && b < chain.len() ==> inherits_from(
            documents,
            #[trigger] chain[a],
            #[trigger] chain[b],
        )
    &&& parent_of(documents, chain[chain.len() - 1]) is None
    &&& chain.no_duplicates()
}

fn find_document(documents: &Vec<(String, Option<String>)>, name: &str) -> (r: Option<usize>)
    ensures
        r matches Some(k) ==> document_index(parents_view(documents@), name@) == Some(k as int) && k
            < documents@.len(),
        r is None ==> document_index(parents_view(documents@), name@) is None,
{
    let mut k: usize = 0;
    while k < documents.len()
        invariant
            k <= documents@.len(),
            index_from(parents_view(documents@), name@, 0) == index_from(
                parents_view(documents@),
                name@,
                k as int,
            ),
        decreases documents.len() - k,
    {
        if str_eq(documents[k].0.as_str(), name) {
            return Some(k);
        }
        k = k + 1;
    }
    None
}

/// Any chain from `name` agrees with the walk `w` wherever both reach.
proof fn lemma_chain_follows_walk(
    documents: Seq<(Seq<char>, Option<Seq<char>>)>,
    name: Seq<char>,
    chain: Seq<int>,
    w: Seq<int>,
    j: int,
)
    requires
        inheritance_chain_of(documents, name, chain),
        w.len() > 0,
        document_index(documents, name) == Some(w[0]),
        forall|m: int|
            0 <= m < w.len() - 1 ==> inherits_from(documents, #[trigger] w[m], w[m + 1]),
        0 <= j < chain.len(),
        j < w.len(),
    ensures
        chain[j] == w[j],
    decreases j,
{
    if j > 0 {
        lemma_chain_follows_walk(documents, name, chain, w, j - 1);
        assert(inherits_from(documents, chain[j - 1], chain[j]));
        assert(inherits_from(documents, w[j - 1], w[j]));
    }
}

/// A document has at most one inheritance chain.
pub proof fn lemma_chain_unique(
    documents: Seq<(Seq<char>, Option<Seq<char>>)>,
    name: Seq<char>,
    c1: Seq<int>,
    c2: Seq<int>,
)
    requires
        inheritance_chain_of(documents, name, c1),
        inheritance_chain_of(documents, name, c2),
    ensures
        c1 == c2,
{
    assert forall|m: int| 0 <= m < c2.len() - 1 implies inherits_from(
        documents,
        #[trigger] c2[m],
        c2[m + 1],
    ) by {
        assert(inherits_from(documents, c2[m], c2[m + 1]));
    }
    assert forall|m: int| 0 <= m < c1.len() - 1 implies inherits_from(
        documents,
        #[trigger] c1[m],
        c1[m + 1],
    ) by {
        assert(inherits_from(documents, c1[m], c1[m + 1]));
    }
    assert forall|j: int| 0 <= j < c1.len() && j < c2.len() implies c1[j] == c2[j] by {
        lemma_chain_follows_walk(documents, name, c1, c2, j);
    }
    if c1.len() < c2.len() {
        let j = c1.len() - 1;
        assert(inherits_from(documents, c2[j], c2[j + 1]));
    } else if c2.len() < c1.len() {
        let j = c2.len() - 1;
        assert(inherits_from(documents, c1[j], c1[j + 1]));
    }
    assert(c1 =~= c2);
}

proof fn lemma_distinct_indices_bounded(s: Seq<int>, n: int)
    requires
        s.no_duplicates(),
        0 <= n,
        forall|i: int| 0 <= i < s.len() ==> 0 <= #[trigger] s[i] < n,
    ensures
        s.len() <= n,
{
    s.unique_seq_to_set();
    vstd::set_lib::lemma_int_range(0, n);
    assert(s.to_set().subset_of(vstd::set_lib::set_int_range(0, n)));
    vstd::set_lib::lemma_len_subset(s.to_set(), vstd::set_lib::set_int_range(0, n));
}

/// The walk `w` follows what each document inherits, starting at `name`.
pub open spec fn walk_from(documents: Seq<(Seq<char>, Option<Seq<char>>)>, name: Seq<char>, w: Seq<int>) -> bool {
    &&& w.len() > 0
    &&& document_index(documents, name) == Some(w[0])
    &&& forall|a: int, b: int|
        0 <= a && b == a + 1 && b < w.len() ==> inherits_from(documents, #[trigger] w[a], #[trigger] w[b])
}

/// A walk that reaches a document whose parent has no document leaves no chain.
proof fn lemma_no_chain_past_missing_parent(
    documents: Seq<(Seq<char>, Option<Seq<char>>)>,
    name: Seq<char>,
    w: Seq<int>,
)
    requires
        walk_from(documents, name, w),
        parent_of(documents, w[w.len() - 1]) matches Some(p) && document_index(documents, p) is None,
    ensures
        !exists|c: Seq<int>| inheritance_chain_of(documents, name, c),
{
    assert forall|c: Seq<int>| !inheritance_chain_of(documents, name, c) by {
        if inheritance_chain_of(documents, name, c) {
            let last = w.len() - 1;
            if c.len() <= w.len() {
                lemma_chain_follows_walk(documents, name, c, w, c.len() - 1);
                if c.len() - 1 < last {
                    assert(inherits_from(documents, w[c.len() - 1], w[c.len() as int]));
                }
            } else {
                lemma_chain_follows_walk(documents, name, c, w, last);
                assert(inherits_from(documents, c[last], c[last + 1]));
            }
        }
    }
}

/// A walk whose last document inherits one the walk already passed leaves no chain.
proof fn lemma_no_chain_through_cycle(
    documents: Seq<(Seq<char>, Option<Seq<char>>)>,
    name: Seq<char>,
    w: Seq<int>,
    m: int,
)
    requires
        walk_from(documents, name, w),
        0 <= m < w.len(),
        inherits_from(documents, w[w.len() - 1], w[m]),
    ensures
        !exists|c: Seq<int>| inheritance_chain_of(documents, name, c),
{
    assert forall|c: Seq<int>| !inheritance_chain_of(documents, name, c) by {
        if inheritance_chain_of(documents, name, c) {
            let last = w.len() - 1;
            if c.len() <= w.len() {
                lemma_chain_follows_walk(documents, name, c, w, c.len() - 1);
                if c.len() - 1 < last {
                    assert(inherits_from(documents, w[c.len() - 1], w[c.len() as int]));
                }
            } else {
                lemma_chain_follows_walk(documents, name, c, w, last);
                lemma_chain_follows_walk(documents, name, c, w, m);
                assert(inherits_from(documents, c[last], c[last + 1]));
                assert(c[last + 1] == c[m]);
            }
        }
    }
}

fn position_of(v: &Vec<usize>, x: usize) -> (r: Option<usize>)
    ensures
        r matches Some(m) ==> m < v@.len() && v@[m as int] == x,
        r is None ==> forall|m: int| 0 <= m < v@.len() ==> v@[m] != x,
{
    let mut m: usize = 0;
    while m < v.len()
        invariant
            m <= v@.len(),
            forall|k: int| 0 <= k < m ==> v@[k] != x,
        decreases v.len() - m,
    {
        if v[m] == x {
            return Some(m);
        }
        m = m + 1;
    }
    None
}

pub open spec fn as_ints(v: Seq<usize>) -> Seq<int> {
    v.map_values(|i: usize| i as int)
}

proof fn lemma_chain_within(chain: Seq<usize>, n: int)
    requires
        0 <= n,
        as_ints(chain).no_duplicates(),
        forall|m: int| 0 <= m < chain.len() ==> (#[trigger] chain[m]) < n,
    ensures
        chain.len() <= n,
{
    let w = as_ints(chain);
    assert forall|i: int| 0 <= i < w.len() implies 0 <= #[trigger] w[i] < n by {
        assert(w[i] == chain[i] as int);
    }
    lemma_distinct_indices_bounded(w, n);
}

proof fn lemma_walk_extends(
    documents: Seq<(Seq<char>, Option<Seq<char>>)>,
    name: Seq<char>,
    before: Seq<usize>,
    next: usize,
)
    requires
        walk_from(documents, name, as_ints(before)),
        as_ints(before).no_duplicates(),
        inherits_from(documents, before[before.len() - 1] as int, next as int),
        forall|k: int| 0 <= k < before.len() ==> before[k] != next,
    ensures
        walk_from(documents, name, as_ints(before.push(next))),
        as_ints(before.push(next)).no_duplicates(),
{
    let w = as_ints(before);
    let w2 = as_ints(before.push(next));
    assert(w2 =~= w.push(next as int));
    assert forall|m: int| 0 <= m < w2.len() - 1 implies inherits_from(
        documents,
        #[trigger] w2[m],
        w2[m + 1],
    ) by {
        if m < w.len() - 1 {
            assert(w2[m] == w[m] && w2[m + 1] == w[m + 1]);
        }
    }
    assert forall|a: int, b: int|
        0 <= a < w2.len() && 0 <= b < w2.len() && a != b implies #[trigger] w2[a] != #[trigger] w2[b] by {
        if b == w2.len() - 1 {
            assert(before[a] != next);
        } else if a == w2.len() - 1 {
            assert(before[b] != next);
        } else {
            assert(w[a] != w[b]);
        }
    }
}

/// Resolves what the profile `name` inherits: the indices of its chain, the
/// profile itself first and the profile that inherits nothing last. A name
/// without a document, or a chain that comes back to a profile it passed,
/// makes the profiles unusable.
#[verifier::spinoff_prover]
pub fn inheritance_chain(documents: &Vec<(String, Option<String>)>, name: &str) -> (r: Result<
    Vec<usize>,
    AppError,
>)
    ensures
        r matches Ok(c) ==> inheritance_chain_of(parents_view(documents@), name@, as_ints(c@)),
        r is Err ==> r == Err::<Vec<usize>, AppError>(AppError::SlicerIncompatible) && !exists|
            c: Seq<int>,
        | inheritance_chain_of(parents_view(documents@), name@, c),
{
    let ghost docs = parents_view(documents@);
    let first = match find_document(documents, name) {
        Some(k) => k,
        None => return Err(AppError::SlicerIncompatible),
    };
    let mut chain: Vec<usize> = Vec::new();
    chain.push(first);
    let mut current = first;
    loop
        invariant
            docs == parents_view(documents@),
            chain@.len() > 0,
            current == chain@[chain@.len() - 1],
            forall|m: int| 0 <= m < chain@.len() ==> (#[trigger] chain@[m]) < docs.len(),
            walk_from(docs, name@, as_ints(chain@)),
            as_ints(chain@).no_duplicates(),
        decreases docs.len() - chain@.len(),
    {
        proof {
            lemma_chain_within(chain@, docs.len() as int);
        }
        let parent = match &documents[current].1 {
            None => {
                assert(parent_of(docs, current as int) is None);
                assert(as_ints(chain@)[chain@.len() - 1] == current as int);
                return Ok(chain);
            },
            Some(p) => p,
        };
        assert(parent_of(docs, current as int) == Some(parent@));
        let next = match find_document(documents, parent.as_str()) {
            Some(k) => k,
            None => {
                proof {
                    assert(as_ints(chain@)[chain@.len() - 1] == current as int);
                    lemma_no_chain_past_missing_parent(docs, name@, as_ints(chain@));
                }
                return Err(AppError::SlicerIncompatible);
            },
        };
        match position_of(&chain, next) {
            Some(m) => {
                proof {
                    assert(as_ints(chain@)[chain@.len() - 1] == current as int);
                    assert(as_ints(chain@)[m as int] == next as int);
                    lemma_no_chain_through_cycle(docs, name@, as_ints(chain@), m as int);
                }
                return Err(AppError::SlicerIncompatible);
            },
            None => {},
        }
        proof {
            lemma_walk_extends(docs, name@, chain@, next);
        }
        chain.push(next);
        proof {
            lemma_chain_within(chain@, docs.len() as int);
        }
        current = next;
    }
}

/// The plates a machine supports: the plates its profile names, when it
/// names any; otherwise the plates the filament settings know, with the
/// plates and the default plate its model names, less those the model does
/// not support.
pub open spec fn plate_keys_spec(
    explicit: Seq<Seq<char>>,
    official: Seq<Seq<char>>,
    model_explicit: Seq<Seq<char>>,
    model_default: Option<Seq<char>>,
    model_unsupported: Seq<Seq<char>>,
) -> Set<Seq<char>> {
    if explicit.len() > 0 {
        explicit.to_set()
    } else {
        official.to_set().union(model_explicit.to_set()).union(
            match model_default {
                Some(d) => set![d],
                None => Set::empty(),
            },
        ).difference(model_unsupported.to_set())
    }
}

fn push_new(out: &mut Vec<String>, x: &str)
    ensures
        strings_view(final(out)@).to_set() == strings_view(old(out)@).to_set().insert(x@),
        strings_view(old(out)@).no_duplicates() ==> strings_view(final(out)@).no_duplicates(),
{
    let ghost before = strings_view(out@);
    let mut i: usize = 0;
    while i < out.len()
        invariant
            i <= out@.len(),
            before == strings_view(out@),
            forall|k: int| 0 <= k < i ==> out@[k]@ != x@,
        decreases out.len() - i,
    {
        if str_eq(out[i].as_str(), x) {
            proof {
                assert(before[i as int] == x@);
                assert(before.to_set().insert(x@) =~= before.to_set());
            }
            return;
        }
        i = i + 1;
    }
    out.push(x.to_owned());
    proof {
        let after = strings_view(out@);
        assert(after =~= before.push(x@));
        assert(after.to_set() =~= before.to_set().insert(x@)) by {
            assert forall|y: Seq<char>| after.to_set().contains(y) <==> before.to_set().insert(
                x@,
            ).contains(y) by {
                if after.to_set().contains(y) {
                    let k = choose|k: int| 0 <= k < after.len() && after[k] == y;
                    if k < before.len() {
                        assert(before[k] == y);
                    }
                }
                if before.to_set().contains(y) {
                    let k = choose|k: int| 0 <= k < before.len() && before[k] == y;
                    assert(after[k] == y);
                }
                if y == x@ {
                    assert(after[before.len() as int] == y);
                }
            }
        }
        assert forall|a: int, b: int|
            0 <= a < after.len() && 0 <= b < after.len() && a != b && before.no_duplicates() implies #[trigger] after[a]
            != #[trigger] after[b] by {
            if a < before.len() && b < before.len() {
                assert(after[a] == before[a] && after[b] == before[b]);
            } else if a < before.len() {
                assert(out@[a]@ != x@);
            } else {
                assert(out@[b]@ != x@);
            }
        }
    }
}

fn contains_string(v: &Vec<String>, x: &str) -> (r: bool)
    ensures
        r == strings_view(v@).to_set().contains(x@),
{
    let mut i: usize = 0;
    while i < v.len()
        invariant
            i <= v@.len(),
            forall|k: int| 0 <= k < i ==> v@[k]@ != x@,
        decreases v.len() - i,
    {
        if str_eq(v[i].as_str(), x) {
            assert(strings_view(v@)[i as int] == x@);
            return true;
        }
        i = i + 1;
    }
    proof {
        if strings_view(v@).to_set().contains(x@) {
            let k = choose|k: int| 0 <= k < strings_view(v@).len() && strings_view(v@)[k] == x@;
            assert(v@[k]@ == x@);
        }
    }
    false
}

fn add_all_but(out: &mut Vec<String>, items: &Vec<String>, excluded: &Vec<String>)
    ensures
        strings_view(final(out)@).to_set() == strings_view(old(out)@).to_set().union(
            strings_view(items@).to_set().difference(strings_view(excluded@).to_set()),
        ),
        strings_view(old(out)@).no_duplicates() ==> strings_view(final(out)@).no_duplicates(),
{
    let ghost start = strings_view(out@);
    let ghost all = strings_view(items@);
    let ghost ex = strings_view(excluded@).to_set();
    let mut i: usize = 0;
    while i < items.len()
        invariant
            i <= items@.len(),
            all == strings_view(items@),
            ex == strings_view(excluded@).to_set(),
            strings_view(out@).to_set() == start.to_set().union(all.take(i as int).to_set().difference(ex)),
            start.no_duplicates() ==> strings_view(out@).no_duplicates(),
        decreases items.len() - i,
    {
        let ghost mid = strings_view(out@);
        let x = items[i].as_str();
        if !contains_string(excluded, x) {
            push_new(out, x);
        }
        proof {
            let t1 = all.take(i + 1);
            let t0 = all.take(i as int);
            assert(t1 =~= t0.push(x@));
            assert(t1.to_set() =~= t0.to_set().insert(x@)) by {
                assert forall|y: Seq<char>| t1.to_set().contains(y) <==> t0.to_set().insert(
                    x@,
                ).contains(y) by {
                    if t1.to_set().contains(y) {
                        let k = choose|k: int| 0 <= k < t1.len() && t1[k] == y;
                        if k < i {
                            assert(t0[k] == y);
                        }
                    }
                    if t0.to_set().contains(y) {
                        let k = choose|k: int| 0 <= k < t0.len() && t0[k] == y;
                        assert(t1[k] == y);
                    }
                    if y == x@ {
                        assert(t1[i as int] == y);
                    }
                }
            }
            assert(strings_view(out@).to_set() =~= start.to_set().union(
                all.take(i + 1).to_set().difference(ex),
            ));
        }
        i = i + 1;
    }
    assert(all.take(i as int) =~= all);
}

/// The plates a machine supports; see `plate_keys_spec`. A machine that
/// supports no plate makes the profiles unusable. No plate is listed twice.
pub fn plate_keys_for(
    explicit: &Vec<String>,
    official: &Vec<String>,
    model_explicit: &Vec<String>,
    model_default: Option<&str>,
    model_unsupported: &Vec<String>,
) -> (r: Result<Vec<String>, AppError>)
    ensures
        r matches Ok(keys) ==> strings_view(keys@).to_set() == plate_keys_spec(
            strings_view(explicit@),
            strings_view(official@),
            strings_view(model_explicit@),
            match model_default {
                Some(d) => Some(d@),
                None => None,
            },
            strings_view(model_unsupported@),
        ) && strings_view(keys@).no_duplicates() && keys@.len() > 0,
        r is Err ==> r == Err::<Vec<String>, AppError>(AppError::SlicerIncompatible)
            && plate_keys_spec(
            strings_view(explicit@),
            strings_view(official@),
            strings_view(model_explicit@),
            match model_default {
                Some(d) => Some(d@),
                None => None,
            },
            strings_view(model_unsupported@),
        ).is_empty(),
{
    let none: Vec<String> = Vec::new();
    let mut out: Vec<String> = Vec::new();
    assert(strings_view(none@).to_set() =~= Set::empty());
    assert(strings_view(out@).to_set() =~= Set::empty());
    if explicit.len() > 0 {
        add_all_but(&mut out, explicit, &none);
    } else {
        add_all_but(&mut out, official, model_unsupported);
        add_all_but(&mut out, model_explicit, model_unsupported);
        match model_default {
            Some(d) => {
                if !contains_string(model_unsupported, d) {
                    push_new(&mut out, d);
                }
            },
            None => {},
        }
    }
    proof {
        let o = strings_view(official@).to_set();
        let m = strings_view(model_explicit@).to_set();
        let u = strings_view(model_unsupported@).to_set();
        if explicit.len() == 0 {
            assert(strings_view(out@).to_set() =~= plate_keys_spec(
                strings_view(explicit@),
                strings_view(official@),
                strings_view(model_explicit@),
                match model_default {
                    Some(d) => Some(d@),
                    None => None,
                },
                strings_view(model_unsupported@),
            ));
        } else {
            assert(strings_view(out@).to_set() =~= strings_view(explicit@).to_set());
        }
    }
    if out.len() == 0 {
        proof {
            assert(strings_view(out@).to_set() =~= Set::empty());
        }
        return Err(AppError::SlicerIncompatible);
    }
    proof {
        assert(strings_view(out@).to_set().contains(strings_view(out@)[0]));
    }
    Ok(out)
}

} // verus!
