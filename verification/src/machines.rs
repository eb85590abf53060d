//! The slicer's machine profiles: which documents describe which printers,
//! what each inherits, its nozzles and the plates it supports. The documents
//! are read as JSON with `serde_json`.
use crate::error::AppError;
use crate::parser::archive::{
    field_exec, field_of, fields_view, has_field, json_document, json_document_of, utf8_text,
    JsonShape, JsonValue,
};
use crate::printers::{
    inheritance_chain, inheritance_chain_of, lemma_chain_unique, parents_view, plate_keys_for,
    plate_keys_spec, setting_items, setting_list, strings_view,
};
use crate::backup::restore::{
    lemma_text_lt_irreflexive, lemma_text_lt_total, lemma_text_lt_transitive, text_less, text_lt,
};
use crate::settlement::text_sorted;
use crate::text::{starts_with, starts_with_seq, str_eq};
use vstd::prelude::*;
use vstd::utf8::{decode_utf8, valid_utf8};

verus! {

/// The string member `key` of a document.
pub open spec fn text_member(f: Seq<(Seq<char>, JsonShape)>, key: Seq<char>) -> Option<Seq<char>> {
    match field_of(f, key) {
        Some(JsonShape::Text(s)) => Some(s),
        _ => None,
    }
}

/// A machine document: UTF-8 JSON, an object, with a string `name`.
pub open spec fn document_of(bytes: Seq<u8>) -> Option<(Seq<char>, Seq<(Seq<char>, JsonShape)>)> {
    if !valid_utf8(bytes) {
        None
    } else {
        match json_document_of(decode_utf8(bytes)) {
            Some(Some(f)) => match text_member(f, "name"@) {
                Some(n) => Some((n, f)),
                None => None,
            },
            _ => None,
        }
    }
}

pub open spec fn names_of(ds: Seq<(Seq<char>, Seq<(Seq<char>, JsonShape)>)>) -> Seq<Seq<char>> {
    ds.map_values(|d: (Seq<char>, Seq<(Seq<char>, JsonShape)>)| d.0)
}

/// The machine documents of the profile directory, in path order; `None`
/// when one is no such document or repeats a name.
pub open spec fn documents_spec(files: Seq<Seq<u8>>) -> Option<Seq<(Seq<char>, Seq<(Seq<char>, JsonShape)>)>>
    decreases files.len(),
{
    if files.len() == 0 {
        Some(Seq::empty())
    } else {
        match (documents_spec(files.drop_last()), document_of(files.last())) {
            (Some(ds), Some(d)) => if names_of(ds).contains(d.0) {
                None
            } else {
                Some(ds.push(d))
            },
            _ => None,
        }
    }
}

pub open spec fn files_view(files: Seq<Vec<u8>>) -> Seq<Seq<u8>> {
    files.map_values(|b: Vec<u8>| b@)
}

pub open spec fn docs_view(v: Seq<(String, Vec<(String, JsonValue)>)>) -> Seq<(Seq<char>, Seq<(Seq<char>, JsonShape)>)> {
    v.map_values(|d: (String, Vec<(String, JsonValue)>)| (d.0@, fields_view(d.1@)))
}

fn read_document(bytes: &Vec<u8>) -> (r: Option<(String, Vec<(String, JsonValue)>)>)
    ensures
        match document_of(bytes@) {
            Some(d) => r matches Some(x) && x.0@ == d.0 && fields_view(x.1@) == d.1,
            None => r is None,
        },
{
    let text = utf8_text(bytes.as_slice())?;
    let fields = match json_document(text.as_str()) {
        Some(Some(f)) => f,
        _ => return None,
    };
    let name = match field_exec(&fields, "name") {
        Some(JsonValue::Text(n)) => n.clone(),
        _ => return None,
    };
    Some((name, fields))
}

/// Reads the machine documents, given the bytes of each `.json` file of the
/// directory in path order.
pub fn machine_documents(files: &Vec<Vec<u8>>) -> (r: Result<Vec<(String, Vec<(String, JsonValue)>)>, AppError>)
    ensures
        match documents_spec(files_view(files@)) {
            Some(ds) => r matches Ok(v) && docs_view(v@) == ds,
            None => r == Err::<Vec<(String, Vec<(String, JsonValue)>)>, AppError>(
                AppError::SlicerIncompatible,
            ),
        },
{
    let ghost fv = files_view(files@);
    let mut out: Vec<(String, Vec<(String, JsonValue)>)> = Vec::new();
    let mut k: usize = 0;
    assert(fv.take(0) =~= Seq::<Seq<u8>>::empty());
    while k < files.len()
        invariant
            k <= files@.len(),
            fv == files_view(files@),
            documents_spec(fv.take(k as int)) == Some(docs_view(out@)),
        decreases files.len() - k,
    {
        assert(fv.take(k + 1).drop_last() =~= fv.take(k as int));
        assert(fv.take(k + 1).last() == files@[k as int]@);
        let document = match read_document(&files[k]) {
            Some(d) => d,
            None => {
                proof {
                    lemma_documents_failure_stays(fv, k + 1, fv.len() as int);
                    assert(fv.take(fv.len() as int) =~= fv);
                }
                return Err(AppError::SlicerIncompatible);
            },
        };
        assert(document_of(fv[k as int]) == Some((document.0@, fields_view(document.1@))));
        let mut j: usize = 0;
        while j < out.len()
            invariant
                j <= out@.len(),
                k < files@.len(),
                fv == files_view(files@),
                documents_spec(fv.take(k as int)) == Some(docs_view(out@)),
                fv.take(k + 1).drop_last() == fv.take(k as int),
                fv.take(k + 1).last() == fv[k as int],
                document_of(fv[k as int]) == Some((document.0@, fields_view(document.1@))),
                forall|m: int| 0 <= m < j ==> out@[m].0@ != document.0@,
            decreases out.len() - j,
        {
            if str_eq(out[j].0.as_str(), document.0.as_str()) {
                proof {
                    assert(names_of(docs_view(out@))[j as int] == document.0@);
                    lemma_documents_failure_stays(fv, k + 1, fv.len() as int);
                    assert(fv.take(fv.len() as int) =~= fv);
                }
                return Err(AppError::SlicerIncompatible);
            }
            j = j + 1;
        }
        proof {
            assert(!names_of(docs_view(out@)).contains(document.0@)) by {
                if names_of(docs_view(out@)).contains(document.0@) {
                    let m = choose|m: int|
                        0 <= m < names_of(docs_view(out@)).len() && names_of(docs_view(out@))[m]
                            == document.0@;
                    assert(out@[m].0@ == document.0@);
                }
            }
        }
        let ghost before = out@;
        out.push(document);
        assert(docs_view(out@) =~= docs_view(before).push(docs_view(out@).last()));
        k = k + 1;
    }
    assert(fv.take(fv.len() as int) =~= fv);
    Ok(out)
}

proof fn lemma_documents_failure_stays(files: Seq<Seq<u8>>, j: int, n: int)
    requires
        0 <= j <= n <= files.len(),
        documents_spec(files.take(j)) is None,
    ensures
        documents_spec(files.take(n)) is None,
    decreases n - j,
{
    if n > j {
        lemma_documents_failure_stays(files, j, n - 1);
        assert(files.take(n).drop_last() =~= files.take(n - 1));
    }
}

/// The plates whose temperature settings the common filament document
/// carries, in this order.
pub open spec fn plate_settings() -> Seq<(Seq<char>, Seq<char>)> {
    seq![
        ("cool_plate_temp"@, "Cool Plate"@),
        ("eng_plate_temp"@, "Engineering Plate"@),
        ("hot_plate_temp"@, "Smooth PEI Plate / High Temp Plate"@),
        ("supertack_plate_temp"@, "Supertack Plate"@),
        ("textured_plate_temp"@, "Textured PEI Plate"@),
    ]
}

pub open spec fn official_from(f: Seq<(Seq<char>, JsonShape)>, n: nat) -> Seq<Seq<char>>
    decreases n,
{
    if n == 0 {
        Seq::empty()
    } else {
        let rest = official_from(f, (n - 1) as nat);
        if has_field(f, plate_settings()[n - 1].0) {
            rest.push(plate_settings()[n - 1].1)
        } else {
            rest
        }
    }
}

/// The plates the slicer's common filament settings know: none without that
/// document; `None` when it is no JSON object.
pub open spec fn official_spec(common: Option<Seq<u8>>) -> Option<Seq<Seq<char>>> {
    match common {
        None => Some(Seq::empty()),
        Some(b) => if !valid_utf8(b) {
            None
        } else {
            match json_document_of(decode_utf8(b)) {
                Some(Some(f)) => Some(official_from(f, 5)),
                _ => None,
            }
        },
    }
}

fn has_field_exec(fields: &Vec<(String, JsonValue)>, key: &str) -> (r: bool)
    ensures
        r == has_field(fields_view(fields@), key@),
{
    let mut i: usize = 0;
    while i < fields.len()
        invariant
            i <= fields@.len(),
            forall|k: int| 0 <= k < i ==> fields_view(fields@)[k].0 != key@,
        decreases fields.len() - i,
    {
        if str_eq(fields[i].0.as_str(), key) {
            assert(fields_view(fields@)[i as int].0 == key@);
            return true;
        }
        i = i + 1;
    }
    false
}

/// The plates the common filament document knows, given its bytes if the
/// profile directory has it.
pub fn official_plate_keys(common: Option<&[u8]>) -> (r: Result<Vec<String>, AppError>)
    ensures
        match official_spec(
            match common {
                Some(b) => Some(b@),
                None => None,
            },
        ) {
            Some(keys) => r matches Ok(v) && strings_view(v@) == keys,
            None => r == Err::<Vec<String>, AppError>(AppError::SlicerIncompatible),
        },
{
    let bytes = match common {
        None => return Ok(Vec::new()),
        Some(b) => b,
    };
    let text = match utf8_text(bytes) {
        Some(t) => t,
        None => return Err(AppError::SlicerIncompatible),
    };
    let fields = match json_document(text.as_str()) {
        Some(Some(f)) => f,
        _ => return Err(AppError::SlicerIncompatible),
    };
    let ghost f = fields_view(fields@);
    let settings = ["cool_plate_temp", "eng_plate_temp", "hot_plate_temp", "supertack_plate_temp", "textured_plate_temp"];
    let plates = ["Cool Plate", "Engineering Plate", "Smooth PEI Plate / High Temp Plate", "Supertack Plate", "Textured PEI Plate"];
    proof {
        assert(settings@.len() == 5 && plates@.len() == 5);
        assert(forall|i: int| 0 <= i < 5 ==> settings@[i]@ == plate_settings()[i].0 && plates@[i]@ == plate_settings()[i].1) by {
            reveal_strlit("cool_plate_temp");
            reveal_strlit("eng_plate_temp");
            reveal_strlit("hot_plate_temp");
            reveal_strlit("supertack_plate_temp");
            reveal_strlit("textured_plate_temp");
            reveal_strlit("Cool Plate");
            reveal_strlit("Engineering Plate");
            reveal_strlit("Smooth PEI Plate / High Temp Plate");
            reveal_strlit("Supertack Plate");
            reveal_strlit("Textured PEI Plate");
        }
    }
    let mut out: Vec<String> = Vec::new();
    let mut i: usize = 0;
    while i < 5
        invariant
            i <= 5,
            f == fields_view(fields@),
            settings@.len() == 5,
            plates@.len() == 5,
            forall|m: int| 0 <= m < 5 ==> settings@[m]@ == plate_settings()[m].0 && plates@[m]@ == plate_settings()[m].1,
            strings_view(out@) == official_from(f, i as nat),
        decreases 5 - i,
    {
        if has_field_exec(&fields, settings[i]) {
            let ghost before = out@;
            out.push(plates[i].to_owned());
            assert(strings_view(out@) =~= strings_view(before).push(plates@[i as int]@));
        }
        i = i + 1;
    }
    Ok(out)
}

/// Each document's name and the name it inherits, if it names one.
pub open spec fn parents_of(docs: Seq<(Seq<char>, Seq<(Seq<char>, JsonShape)>)>) -> Seq<(Seq<char>, Option<Seq<char>>)> {
    docs.map_values(|d: (Seq<char>, Seq<(Seq<char>, JsonShape)>)| (d.0, text_member(d.1, "inherits"@)))
}

/// `true` as a JSON boolean or string.
pub open spec fn json_true(v: Option<JsonShape>) -> bool {
    match v {
        Some(JsonShape::Text(t)) => t == "true"@,
        Some(JsonShape::Other(t)) => t == "true"@,
        _ => false,
    }
}

/// A document that describes a printer one can choose.
pub open spec fn is_instance(f: Seq<(Seq<char>, JsonShape)>) -> bool {
    text_member(f, "type"@) == Some("machine"@) && json_true(field_of(f, "instantiation"@))
}

/// The member `key` of a profile with what it inherits: the value of the
/// first document along the chain that has it.
pub open spec fn resolved(
    docs: Seq<(Seq<char>, Seq<(Seq<char>, JsonShape)>)>,
    chain: Seq<int>,
    key: Seq<char>,
) -> Option<JsonShape>
    decreases chain.len(),
{
    if chain.len() == 0 {
        None
    } else {
        match field_of(docs[chain[0]].1, key) {
            Some(v) => Some(v),
            None => resolved(docs, chain.drop_first(), key),
        }
    }
}

/// The settings of a list of strings, each split at `;`.
pub open spec fn list_strings(items: Seq<(bool, Seq<char>)>) -> Seq<Seq<char>>
    decreases items.len(),
{
    if items.len() == 0 {
        Seq::empty()
    } else {
        list_strings(items.drop_last()) + if items.last().0 {
            setting_items(items.last().1)
        } else {
            Seq::empty()
        }
    }
}

/// The settings a member lists: a string split at `;`, or the strings of an
/// array split so; nothing otherwise.
pub open spec fn json_strings(v: Option<JsonShape>) -> Seq<Seq<char>> {
    match v {
        Some(JsonShape::Text(t)) => setting_items(t),
        Some(JsonShape::List(items)) => list_strings(items),
        _ => Seq::empty(),
    }
}

/// The first document called `name`.
pub open spec fn named(docs: Seq<(Seq<char>, Seq<(Seq<char>, JsonShape)>)>, name: Seq<char>) -> Option<Seq<(Seq<char>, JsonShape)>>
    decreases docs.len(),
{
    if docs.len() == 0 {
        None
    } else if docs[0].0 == name {
        Some(docs[0].1)
    } else {
        named(docs.drop_first(), name)
    }
}

pub open spec fn model_plates(m: Option<Seq<(Seq<char>, JsonShape)>>) -> Seq<Seq<char>> {
    match m {
        Some(f) => json_strings(field_of(f, "plate_keys"@)) + json_strings(field_of(f, "supported_bed_types"@))
            + json_strings(field_of(f, "bed_type"@)),
        None => Seq::empty(),
    }
}

/// What one printer profile gives, following its chain: `Some(None)` when it
/// names no Bambu Lab model, `None` when it lists no nozzle or supports no
/// plate, else the model, the nozzle sizes as text and the plates.
pub open spec fn machine_spec(
    docs: Seq<(Seq<char>, Seq<(Seq<char>, JsonShape)>)>,
    official: Seq<Seq<char>>,
    chain: Seq<int>,
) -> Option<Option<(Seq<char>, Seq<Seq<char>>, Set<Seq<char>>)>> {
    match resolved(docs, chain, "printer_model"@) {
        Some(JsonShape::Text(model)) => if !starts_with_seq(model, "Bambu Lab "@) {
            Some(None)
        } else {
            let nozzles = json_strings(resolved(docs, chain, "nozzle_diameter"@));
            let model_doc = named(docs, model);
            let plates = plate_keys_spec(
                json_strings(resolved(docs, chain, "plate_keys"@)) + json_strings(
                    resolved(docs, chain, "supported_bed_types"@),
                ) + json_strings(resolved(docs, chain, "bed_type"@)),
                official,
                model_plates(model_doc),
                match model_doc {
                    Some(f) => text_member(f, "default_bed_type"@),
                    None => None,
                },
                match model_doc {
                    Some(f) => json_strings(field_of(f, "not_support_bed_type"@)),
                    None => Seq::empty(),
                },
            );
            if nozzles.len() == 0 || plates.is_empty() {
                None
            } else {
                Some(Some((model, nozzles, plates)))
            }
        },
        _ => Some(None),
    }
}

/// What document `i` gives: nothing unless it is a printer one can choose;
/// `None` when it has no inheritance chain or its profile is refused.
pub open spec fn document_outcome(
    docs: Seq<(Seq<char>, Seq<(Seq<char>, JsonShape)>)>,
    official: Seq<Seq<char>>,
    i: int,
) -> Option<Option<(Seq<char>, Seq<Seq<char>>, Set<Seq<char>>)>> {
    if !is_instance(docs[i].1) {
        Some(None)
    } else if exists|c: Seq<int>| inheritance_chain_of(parents_of(docs), docs[i].0, c) {
        machine_spec(
            docs,
            official,
            choose|c: Seq<int>| inheritance_chain_of(parents_of(docs), docs[i].0, c),
        )
    } else {
        None
    }
}

/// The printers of the first `n` documents, in order; `None` when one of
/// them is refused.
pub open spec fn catalog_spec(
    docs: Seq<(Seq<char>, Seq<(Seq<char>, JsonShape)>)>,
    official: Seq<Seq<char>>,
    n: nat,
) -> Option<Seq<(Seq<char>, Seq<Seq<char>>, Set<Seq<char>>)>>
    decreases n,
{
    if n == 0 {
        Some(Seq::empty())
    } else {
        match (catalog_spec(docs, official, (n - 1) as nat), document_outcome(docs, official, n - 1)) {
            (Some(a), Some(None)) => Some(a),
            (Some(a), Some(Some(m))) => Some(a.push(m)),
            _ => None,
        }
    }
}

/// A printer profile: its model, nozzle sizes (as text) and plates.
#[derive(Debug, Clone)]
pub struct MachineEntry {
    pub model_key: String,
    pub nozzle_diameters: Vec<String>,
    pub plate_keys: Vec<String>,
}

pub open spec fn entry_view(e: MachineEntry) -> (Seq<char>, Seq<Seq<char>>, Set<Seq<char>>) {
    (e.model_key@, strings_view(e.nozzle_diameters@), strings_view(e.plate_keys@).to_set())
}

pub open spec fn entries_view(v: Seq<MachineEntry>) -> Seq<(Seq<char>, Seq<Seq<char>>, Set<Seq<char>>)> {
    v.map_values(|e: MachineEntry| entry_view(e))
}

proof fn lemma_index_in_range(d: Seq<(Seq<char>, Option<Seq<char>>)>, name: Seq<char>, k: int, i: int)
    requires
        crate::printers::index_from(d, name, k) == Some(i),
    ensures
        0 <= i < d.len(),
    decreases d.len() - k,
{
    if k >= 0 && k < d.len() && d[k].0 != name {
        lemma_index_in_range(d, name, k + 1, i);
    }
}

proof fn lemma_chain_in_range(d: Seq<(Seq<char>, Option<Seq<char>>)>, name: Seq<char>, c: Seq<int>)
    requires
        inheritance_chain_of(d, name, c),
    ensures
        forall|m: int| 0 <= m < c.len() ==> 0 <= #[trigger] c[m] < d.len(),
{
    assert forall|m: int| 0 <= m < c.len() implies 0 <= #[trigger] c[m] < d.len() by {
        if m == 0 {
            lemma_index_in_range(d, name, 0, c[0]);
        } else {
            assert(crate::printers::inherits_from(d, c[m - 1], c[m]));
            let p = crate::printers::parent_of(d, c[m - 1])->Some_0;
            lemma_index_in_range(d, p, 0, c[m]);
        }
    }
}

fn text_member_exec(fields: &Vec<(String, JsonValue)>, key: &str) -> (r: Option<String>)
    ensures
        opt_text(r) == text_member(fields_view(fields@), key@),
{
    match field_exec(fields, key) {
        Some(JsonValue::Text(t)) => Some(t.clone()),
        _ => None,
    }
}

pub open spec fn opt_text(o: Option<String>) -> Option<Seq<char>> {
    match o {
        Some(s) => Some(s@),
        None => None,
    }
}

fn json_strings_exec(v: Option<&JsonValue>) -> (r: Vec<String>)
    ensures
        strings_view(r@) == json_strings(
            match v {
                Some(x) => Some(crate::parser::archive::value_view(*x)),
                None => None,
            },
        ),
{
    match v {
        Some(JsonValue::Text(t)) => setting_list(t.as_str()),
        Some(JsonValue::List(items)) => {
            let ghost iv = items@.map_values(|x: crate::parser::archive::JsonItem| crate::parser::archive::item_view(x));
            let mut out: Vec<String> = Vec::new();
            let mut k: usize = 0;
            assert(iv.take(0) =~= Seq::<(bool, Seq<char>)>::empty());
            while k < items.len()
                invariant
                    k <= items@.len(),
                    iv == items@.map_values(|x: crate::parser::archive::JsonItem| crate::parser::archive::item_view(x)),
                    strings_view(out@) == list_strings(iv.take(k as int)),
                decreases items.len() - k,
            {
                assert(iv.take(k + 1).drop_last() =~= iv.take(k as int));
                assert(iv.take(k + 1).last() == iv[k as int]);
                match &items[k] {
                    crate::parser::archive::JsonItem::Text(t) => {
                        let ghost before = out@;
                        let mut more = setting_list(t.as_str());
                        let ghost added = more@;
                        out.append(&mut more);
                        assert(strings_view(out@) =~= strings_view(before) + strings_view(added));
                    },
                    crate::parser::archive::JsonItem::Other(_) => {
                        assert(list_strings(iv.take(k + 1)) =~= list_strings(iv.take(k as int)));
                    },
                }
                k = k + 1;
            }
            assert(iv.take(items@.len() as int) =~= iv);
            out
        },
        _ => Vec::new(),
    }
}

fn resolved_exec<'a>(
    docs: &'a Vec<(String, Vec<(String, JsonValue)>)>,
    chain: &Vec<usize>,
    key: &str,
) -> (r: Option<&'a JsonValue>)
    requires
        forall|m: int| 0 <= m < chain@.len() ==> #[trigger] chain@[m] < docs@.len(),
    ensures
        match r {
            Some(v) => resolved(docs_view(docs@), crate::printers::as_ints(chain@), key@) == Some(
                crate::parser::archive::value_view(*v),
            ),
            None => resolved(docs_view(docs@), crate::printers::as_ints(chain@), key@) is None,
        },
{
    let ghost dv = docs_view(docs@);
    let ghost c = crate::printers::as_ints(chain@);
    let mut k: usize = 0;
    assert(c.skip(0) =~= c);
    while k < chain.len()
        invariant
            k <= chain@.len(),
            dv == docs_view(docs@),
            c == crate::printers::as_ints(chain@),
            forall|m: int| 0 <= m < chain@.len() ==> #[trigger] chain@[m] < docs@.len(),
            resolved(dv, c, key@) == resolved(dv, c.skip(k as int), key@),
        decreases chain.len() - k,
    {
        assert(c.skip(k as int).drop_first() =~= c.skip(k + 1));
        assert(c.skip(k as int)[0] == chain@[k as int] as int);
        let index = chain[k];
        match field_exec(&docs[index].1, key) {
            Some(v) => {
                return Some(v);
            },
            None => {},
        }
        k = k + 1;
    }
    None
}

fn named_exec<'a>(docs: &'a Vec<(String, Vec<(String, JsonValue)>)>, name: &str) -> (r: Option<&'a Vec<(String, JsonValue)>>)
    ensures
        match r {
            Some(f) => named(docs_view(docs@), name@) == Some(fields_view(f@)),
            None => named(docs_view(docs@), name@) is None,
        },
{
    let ghost dv = docs_view(docs@);
    let mut k: usize = 0;
    assert(dv.skip(0) =~= dv);
    while k < docs.len()
        invariant
            k <= docs@.len(),
            dv == docs_view(docs@),
            named(dv, name@) == named(dv.skip(k as int), name@),
        decreases docs.len() - k,
    {
        assert(dv.skip(k as int).drop_first() =~= dv.skip(k + 1));
        if str_eq(docs[k].0.as_str(), name) {
            return Some(&docs[k].1);
        }
        k = k + 1;
    }
    None
}

fn model_plates_exec(m: Option<&Vec<(String, JsonValue)>>) -> (r: Vec<String>)
    ensures
        strings_view(r@) == model_plates(
            match m {
                Some(f) => Some(fields_view(f@)),
                None => None,
            },
        ),
{
    match m {
        Some(f) => {
            let mut a = json_strings_exec(field_exec(f, "plate_keys"));
            let mut b = json_strings_exec(field_exec(f, "supported_bed_types"));
            let mut c = json_strings_exec(field_exec(f, "bed_type"));
            let ghost (av, bv, cv) = (strings_view(a@), strings_view(b@), strings_view(c@));
            a.append(&mut b);
            a.append(&mut c);
            assert(strings_view(a@) =~= av + bv + cv);
            a
        },
        None => Vec::new(),
    }
}

fn json_true_exec(v: Option<&JsonValue>) -> (r: bool)
    ensures
        r == json_true(
            match v {
                Some(x) => Some(crate::parser::archive::value_view(*x)),
                None => None,
            },
        ),
{
    match v {
        Some(JsonValue::Text(t)) => str_eq(t.as_str(), "true"),
        Some(JsonValue::Other(t)) => str_eq(t.as_str(), "true"),
        _ => false,
    }
}

fn parents_exec(docs: &Vec<(String, Vec<(String, JsonValue)>)>) -> (r: Vec<(String, Option<String>)>)
    ensures
        parents_view(r@) == parents_of(docs_view(docs@)),
{
    let mut out: Vec<(String, Option<String>)> = Vec::new();
    let mut k: usize = 0;
    while k < docs.len()
        invariant
            k <= docs@.len(),
            out@.len() == k,
            forall|j: int| 0 <= j < k ==> #[trigger] parents_view(out@)[j] == parents_of(docs_view(docs@))[j],
        decreases docs.len() - k,
    {
        let parent = text_member_exec(&docs[k].1, "inherits");
        let name = docs[k].0.clone();
        let ghost before = out@;
        let ghost pv = opt_text(parent);
        out.push((name, parent));
        assert(parents_view(out@)[k as int] == (docs@[k as int].0@, pv));
        assert(parents_of(docs_view(docs@))[k as int] == (docs@[k as int].0@, pv));
        assert forall|j: int| 0 <= j < k + 1 implies #[trigger] parents_view(out@)[j] == parents_of(docs_view(docs@))[j] by {
            if j < k {
                assert(out@[j] == before[j]);
                assert(parents_view(out@)[j] == parents_view(before)[j]);
            }
        }
        k = k + 1;
    }
    assert(parents_view(out@) =~= parents_of(docs_view(docs@)));
    out
}

fn machine_entry(
    docs: &Vec<(String, Vec<(String, JsonValue)>)>,
    official: &Vec<String>,
    chain: &Vec<usize>,
) -> (r: Result<Option<MachineEntry>, AppError>)
    requires
        forall|m: int| 0 <= m < chain@.len() ==> #[trigger] chain@[m] < docs@.len(),
    ensures
        match machine_spec(docs_view(docs@), strings_view(official@), crate::printers::as_ints(chain@)) {
            None => r == Err::<Option<MachineEntry>, AppError>(AppError::SlicerIncompatible),
            Some(None) => r == Ok::<Option<MachineEntry>, AppError>(None),
            Some(Some(m)) => r matches Ok(Some(e)) && entry_view(e) == m && strings_view(
                e.plate_keys@,
            ).no_duplicates(),
        },
{
    let model = match resolved_exec(docs, chain, "printer_model") {
        Some(JsonValue::Text(m)) => m,
        _ => return Ok(None),
    };
    if !starts_with(model.as_str(), "Bambu Lab ") {
        return Ok(None);
    }
    let nozzles = json_strings_exec(resolved_exec(docs, chain, "nozzle_diameter"));
    let mut explicit = json_strings_exec(resolved_exec(docs, chain, "plate_keys"));
    let mut supported = json_strings_exec(resolved_exec(docs, chain, "supported_bed_types"));
    let mut bed = json_strings_exec(resolved_exec(docs, chain, "bed_type"));
    let ghost (ev, sv, bv) = (strings_view(explicit@), strings_view(supported@), strings_view(bed@));
    explicit.append(&mut supported);
    explicit.append(&mut bed);
    assert(strings_view(explicit@) =~= ev + sv + bv);
    let model_doc = named_exec(docs, model.as_str());
    let model_explicit = model_plates_exec(model_doc);
    let default = match model_doc {
        Some(f) => text_member_exec(f, "default_bed_type"),
        None => None,
    };
    let unsupported = match model_doc {
        Some(f) => json_strings_exec(field_exec(f, "not_support_bed_type")),
        None => Vec::new(),
    };
    let default_text = match &default {
        Some(d) => Some(d.as_str()),
        None => None,
    };
    let plates = plate_keys_for(&explicit, official, &model_explicit, default_text, &unsupported);
    if nozzles.len() == 0 {
        return Err(AppError::SlicerIncompatible);
    }
    let plates = match plates {
        Ok(p) => p,
        Err(_) => return Err(AppError::SlicerIncompatible),
    };
    let ghost dv = docs_view(docs@);
    let ghost c = crate::printers::as_ints(chain@);
    let ghost md = named(dv, model@);
    assert(resolved(dv, c, "printer_model"@) == Some(JsonShape::Text(model@)));
    assert(json_strings(resolved(dv, c, "nozzle_diameter"@)) == strings_view(nozzles@));
    assert(model_plates(md) == strings_view(model_explicit@));
    assert(match md {
        Some(f) => text_member(f, "default_bed_type"@),
        None => None,
    } == match default_text {
        Some(d) => Some(d@),
        None => None,
    });
    assert(match md {
        Some(f) => json_strings(field_of(f, "not_support_bed_type"@)),
        None => Seq::empty(),
    } == strings_view(unsupported@));
    assert(strings_view(plates@).to_set().contains(strings_view(plates@)[0]));
    let entry = MachineEntry { model_key: model.clone(), nozzle_diameters: nozzles, plate_keys: plates };
    assert(entry.model_key@ == model@);
    Ok(Some(entry))
}

proof fn lemma_catalog_failure_stays(
    docs: Seq<(Seq<char>, Seq<(Seq<char>, JsonShape)>)>,
    official: Seq<Seq<char>>,
    j: nat,
    n: nat,
)
    requires
        j <= n,
        catalog_spec(docs, official, j) is None,
    ensures
        catalog_spec(docs, official, n) is None,
    decreases n - j,
{
    if n > j {
        lemma_catalog_failure_stays(docs, official, j, (n - 1) as nat);
    }
}

/// The printers the machine documents describe, in document order, given the
/// plates the common filament settings know.
pub fn machine_catalog(docs: &Vec<(String, Vec<(String, JsonValue)>)>, official: &Vec<String>) -> (r: Result<
    Vec<MachineEntry>,
    AppError,
>)
    ensures
        match catalog_spec(docs_view(docs@), strings_view(official@), docs@.len() as nat) {
            Some(ms) => r matches Ok(v) && entries_view(v@) == ms && forall|k: int|
                0 <= k < v@.len() ==> strings_view(#[trigger] v@[k].plate_keys@).no_duplicates(),
            None => r == Err::<Vec<MachineEntry>, AppError>(AppError::SlicerIncompatible),
        },
{
    let ghost dv = docs_view(docs@);
    let ghost ov = strings_view(official@);
    let parents = parents_exec(docs);
    let mut out: Vec<MachineEntry> = Vec::new();
    let mut i: usize = 0;
    while i < docs.len()
        invariant
            i <= docs@.len(),
            dv == docs_view(docs@),
            ov == strings_view(official@),
            parents_view(parents@) == parents_of(dv),
            catalog_spec(dv, ov, i as nat) == Some(entries_view(out@)),
            forall|k: int|
                0 <= k < out@.len() ==> strings_view(#[trigger] out@[k].plate_keys@).no_duplicates(),
        decreases docs.len() - i,
    {
        let ghost name = dv[i as int].0;
        let fields = &docs[i].1;
        let kind = text_member_exec(fields, "type");
        let machine = match &kind {
            Some(t) => str_eq(t.as_str(), "machine"),
            None => false,
        };
        proof {
            reveal_strlit("machine");
        }
        if !machine || !json_true_exec(field_exec(fields, "instantiation")) {
            assert(!is_instance(dv[i as int].1));
            assert(entries_view(out@) == entries_view(out@));
            i = i + 1;
            continue;
        }
        assert(is_instance(dv[i as int].1));
        let chain = match inheritance_chain(&parents, docs[i].0.as_str()) {
            Ok(c) => c,
            Err(_) => {
                proof {
                    assert(document_outcome(dv, ov, i as int) is None);
                    lemma_catalog_failure_stays(dv, ov, (i + 1) as nat, dv.len() as nat);
                }
                return Err(AppError::SlicerIncompatible);
            },
        };
        proof {
            let c = crate::printers::as_ints(chain@);
            lemma_chain_in_range(parents_of(dv), name, c);
            assert forall|m: int| 0 <= m < chain@.len() implies #[trigger] chain@[m] < docs@.len() by {
                assert(c[m] == chain@[m] as int);
            }
            let chosen = choose|c2: Seq<int>| inheritance_chain_of(parents_of(dv), name, c2);
            lemma_chain_unique(parents_of(dv), name, c, chosen);
            assert(document_outcome(dv, ov, i as int) == machine_spec(dv, ov, c));
        }
        match machine_entry(docs, official, &chain) {
            Err(_) => {
                proof {
                    lemma_catalog_failure_stays(dv, ov, (i + 1) as nat, dv.len() as nat);
                }
                return Err(AppError::SlicerIncompatible);
            },
            Ok(None) => {},
            Ok(Some(entry)) => {
                let ghost before = out@;
                out.push(entry);
                assert(entries_view(out@) =~= entries_view(before).push(entry_view(entry)));
            },
        }
        i = i + 1;
    }
    Ok(out)
}

/// Adds `x` to a sorted list of distinct texts, keeping it so.
fn insert_text(v: &mut Vec<String>, x: &String)
    requires
        text_sorted(strings_view(old(v)@)),
    ensures
        text_sorted(strings_view(final(v)@)),
        strings_view(final(v)@).to_set() == strings_view(old(v)@).to_set().insert(x@),
{
    let ghost before = strings_view(v@);
    let mut p: usize = 0;
    while p < v.len() && text_less(v[p].as_str(), x.as_str())
        invariant
            p <= v@.len(),
            before == strings_view(v@),
            forall|m: int| 0 <= m < p ==> text_lt((#[trigger] v@[m])@, x@),
        decreases v.len() - p,
    {
        p = p + 1;
    }
    if p < v.len() && str_eq(v[p].as_str(), x.as_str()) {
        proof {
            assert(before[p as int] == x@);
            assert(before.to_set().insert(x@) =~= before.to_set());
        }
        return;
    }
    proof {
        if p < before.len() {
            lemma_text_lt_total(before[p as int], x@);
        }
    }
    v.insert(p, x.clone());
    proof {
        let after = strings_view(v@);
        assert(after =~= before.insert(p as int, x@));
        assert forall|a: int, b: int| 0 <= a < b < after.len() implies text_lt(#[trigger] after[a], #[trigger] after[b]) by {
            if b < p {
                assert(text_lt(before[a], before[b]));
            } else if a < p && b == p {
            } else if a >= p + 1 {
                assert(text_lt(before[a - 1], before[b - 1]));
            } else {
                assert(text_lt(x@, before[p as int]));
                if b - 1 > p {
                    assert(text_lt(before[p as int], before[b - 1]));
                    lemma_text_lt_transitive(x@, before[p as int], before[b - 1]);
                }
                if a < p {
                    lemma_text_lt_transitive(before[a], x@, before[b - 1]);
                }
            }
        }
        assert forall|y: Seq<char>| after.to_set().contains(y) <==> before.to_set().insert(x@).contains(y) by {
            if after.contains(y) {
                let i = choose|i: int| 0 <= i < after.len() && after[i] == y;
                if i < p {
                    assert(before[i] == y);
                } else if i > p {
                    assert(before[i - 1] == y);
                }
            }
            if before.contains(y) {
                let i = choose|i: int| 0 <= i < before.len() && before[i] == y;
                if i < p {
                    assert(after[i] == y);
                } else {
                    assert(after[i + 1] == y);
                }
            }
            if y == x@ {
                assert(after[p as int] == y);
            }
        }
        assert(after.to_set() =~= before.to_set().insert(x@));
    }
}

/// The printers of one model: its key, the plates any of them supports
/// (sorted, each once) and the positions of those printers in the catalog.
#[derive(Debug, Clone)]
pub struct ModelGroup {
    pub model_key: String,
    pub plate_keys: Vec<String>,
    pub members: Vec<usize>,
}

/// The positions, in order, of the first `n` printers of model `model`.
pub open spec fn members_of(ms: Seq<(Seq<char>, Seq<Seq<char>>, Set<Seq<char>>)>, model: Seq<char>, n: nat) -> Seq<int>
    decreases n,
{
    if n == 0 {
        Seq::empty()
    } else if ms[n - 1].0 == model {
        members_of(ms, model, (n - 1) as nat).push(n - 1)
    } else {
        members_of(ms, model, (n - 1) as nat)
    }
}

/// The plates the first `n` printers of model `model` support.
pub open spec fn model_plate_set(ms: Seq<(Seq<char>, Seq<Seq<char>>, Set<Seq<char>>)>, model: Seq<char>, n: nat) -> Set<Seq<char>>
    decreases n,
{
    if n == 0 {
        Set::empty()
    } else if ms[n - 1].0 == model {
        model_plate_set(ms, model, (n - 1) as nat).union(ms[n - 1].2)
    } else {
        model_plate_set(ms, model, (n - 1) as nat)
    }
}

proof fn lemma_group_step(
    ms: Seq<(Seq<char>, Seq<Seq<char>>, Set<Seq<char>>)>,
    i: nat,
    before: Seq<ModelGroup>,
    after: Seq<ModelGroup>,
    k: int,
)
    requires
        i < ms.len(),
        i < usize::MAX,
        groups_ok(ms, i, before),
        0 <= k < before.len(),
        after.len() == before.len(),
        before[k].model_key@ == ms[i as int].0,
        after[k].model_key@ == before[k].model_key@,
        after[k].members@ == before[k].members@.push(i as usize),
        text_sorted(strings_view(after[k].plate_keys@)),
        strings_view(after[k].plate_keys@).to_set() == strings_view(before[k].plate_keys@).to_set().union(ms[i as int].2),
        forall|m: int| 0 <= m < before.len() && m != k ==> after[m] == before[m],
    ensures
        groups_ok(ms, i + 1, after),
{
    let model = ms[i as int].0;
    assert forall|a: int, b: int| 0 <= a < b < after.len() implies text_lt((#[trigger] after[a]).model_key@, (#[trigger] after[b]).model_key@) by {
        assert(text_lt(before[a].model_key@, before[b].model_key@));
    }
    assert forall|m: int| 0 <= m < after.len() implies group_ok(ms, i + 1, #[trigger] after[m]) by {
        if m == k {
            assert((i as usize) as int == i);
            assert(after[k].members@.map_values(|x: usize| x as int) =~= before[k].members@.map_values(|x: usize| x as int).push(i as int));
            assert(members_of(ms, model, i + 1) == members_of(ms, model, i).push(i as int));
            assert(model_plate_set(ms, model, i + 1) == model_plate_set(ms, model, i).union(ms[i as int].2));
        } else {
            assert(after[m] == before[m]);
            assert(before[m].model_key@ != model) by {
                if m < k {
                    assert(text_lt(before[m].model_key@, before[k].model_key@));
                } else {
                    assert(text_lt(before[k].model_key@, before[m].model_key@));
                }
                lemma_text_lt_irreflexive(model);
            }
            lemma_other_model_unchanged(ms, i, before[m].model_key@);
        }
    }
    assert forall|j: int| 0 <= j < i + 1 implies exists|m: int| 0 <= m < after.len() && (#[trigger] after[m]).model_key@ == (#[trigger] ms[j]).0 by {
        if j < i {
            let m = choose|m: int| 0 <= m < before.len() && (#[trigger] before[m]).model_key@ == ms[j].0;
            if m == k {
                assert(after[k].model_key@ == ms[j].0);
            } else {
                assert(after[m] == before[m]);
            }
        } else {
            assert(after[k].model_key@ == ms[j].0);
        }
    }
}

proof fn lemma_group_new(
    ms: Seq<(Seq<char>, Seq<Seq<char>>, Set<Seq<char>>)>,
    i: nat,
    before: Seq<ModelGroup>,
    after: Seq<ModelGroup>,
    p: int,
)
    requires
        i < ms.len(),
        i < usize::MAX,
        groups_ok(ms, i, before),
        0 <= p <= before.len(),
        forall|m: int| 0 <= m < before.len() ==> (#[trigger] before[m]).model_key@ != ms[i as int].0,
        forall|m: int| 0 <= m < p ==> text_lt((#[trigger] before[m]).model_key@, ms[i as int].0),
        p < before.len() ==> text_lt(ms[i as int].0, before[p].model_key@),
        after.len() == before.len() + 1,
        after[p].model_key@ == ms[i as int].0,
        after[p].members@ == seq![i as usize],
        text_sorted(strings_view(after[p].plate_keys@)),
        strings_view(after[p].plate_keys@).to_set() == Set::<Seq<char>>::empty().union(ms[i as int].2),
        forall|m: int| 0 <= m < p ==> after[m] == before[m],
        forall|m: int| p < m < after.len() ==> after[m] == before[m - 1],
    ensures
        groups_ok(ms, i + 1, after),
{
    let model = ms[i as int].0;
    assert forall|j: int| 0 <= j < i implies (#[trigger] ms[j]).0 != model by {
        let m = choose|m: int| 0 <= m < before.len() && (#[trigger] before[m]).model_key@ == ms[j].0;
    }
    lemma_no_members(ms, i, model);
    assert forall|a: int, b: int| 0 <= a < b < after.len() implies text_lt((#[trigger] after[a]).model_key@, (#[trigger] after[b]).model_key@) by {
        if b < p {
            assert(text_lt(before[a].model_key@, before[b].model_key@));
        } else if a < p && b == p {
        } else if a > p {
            assert(text_lt(before[a - 1].model_key@, before[b - 1].model_key@));
        } else {
            if b - 1 > p {
                assert(text_lt(before[p].model_key@, before[b - 1].model_key@));
                lemma_text_lt_transitive(model, before[p].model_key@, before[b - 1].model_key@);
            }
            if a < p {
                lemma_text_lt_transitive(before[a].model_key@, model, before[b - 1].model_key@);
            }
        }
    }
    assert forall|m: int| 0 <= m < after.len() implies group_ok(ms, i + 1, #[trigger] after[m]) by {
        if m == p {
            assert((i as usize) as int == i);
            assert(after[p].members@.map_values(|x: usize| x as int) =~= seq![i as int]);
            assert(members_of(ms, model, i + 1) =~= seq![i as int]);
            assert(model_plate_set(ms, model, i + 1) == Set::<Seq<char>>::empty().union(ms[i as int].2));
        } else {
            let o = if m < p { m } else { m - 1 };
            assert(after[m] == before[o]);
            lemma_other_model_unchanged(ms, i, before[o].model_key@);
        }
    }
    assert forall|j: int| 0 <= j < i + 1 implies exists|m: int| 0 <= m < after.len() && (#[trigger] after[m]).model_key@ == (#[trigger] ms[j]).0 by {
        if j < i {
            let m = choose|m: int| 0 <= m < before.len() && (#[trigger] before[m]).model_key@ == ms[j].0;
            if m < p {
                assert(after[m] == before[m]);
            } else {
                assert(after[m + 1] == before[m]);
            }
        } else {
            assert(after[p].model_key@ == ms[j].0);
        }
    }
}

pub open spec fn group_ok(ms: Seq<(Seq<char>, Seq<Seq<char>>, Set<Seq<char>>)>, n: nat, g: ModelGroup) -> bool {
    &&& g.members@.map_values(|i: usize| i as int) == members_of(ms, g.model_key@, n)
    &&& g.members@.len() > 0
    &&& text_sorted(strings_view(g.plate_keys@))
    &&& strings_view(g.plate_keys@).to_set() == model_plate_set(ms, g.model_key@, n)
}

/// `groups` gathers the first `n` printers by model, in model order.
pub open spec fn groups_ok(ms: Seq<(Seq<char>, Seq<Seq<char>>, Set<Seq<char>>)>, n: nat, groups: Seq<ModelGroup>) -> bool {
    &&& forall|a: int, b: int|
        0 <= a < b < groups.len() ==> text_lt((#[trigger] groups[a]).model_key@, (#[trigger] groups[b]).model_key@)
    &&& forall|k: int| 0 <= k < groups.len() ==> group_ok(ms, n, #[trigger] groups[k])
    &&& forall|i: int|
        0 <= i < n ==> exists|k: int| 0 <= k < groups.len() && (#[trigger] groups[k]).model_key@ == (#[trigger] ms[i]).0
}

proof fn lemma_other_model_unchanged(ms: Seq<(Seq<char>, Seq<Seq<char>>, Set<Seq<char>>)>, n: nat, model: Seq<char>)
    requires
        n < ms.len(),
        ms[n as int].0 != model,
    ensures
        members_of(ms, model, n + 1) == members_of(ms, model, n),
        model_plate_set(ms, model, n + 1) == model_plate_set(ms, model, n),
{
}

proof fn lemma_no_members(ms: Seq<(Seq<char>, Seq<Seq<char>>, Set<Seq<char>>)>, n: nat, model: Seq<char>)
    requires
        n <= ms.len(),
        forall|i: int| 0 <= i < n ==> (#[trigger] ms[i]).0 != model,
    ensures
        members_of(ms, model, n) == Seq::<int>::empty(),
        model_plate_set(ms, model, n) == Set::<Seq<char>>::empty(),
    decreases n,
{
    if n > 0 {
        lemma_no_members(ms, (n - 1) as nat, model);
    }
}

fn add_plates(v: &mut Vec<String>, plates: &Vec<String>)
    requires
        text_sorted(strings_view(old(v)@)),
    ensures
        text_sorted(strings_view(final(v)@)),
        strings_view(final(v)@).to_set() == strings_view(old(v)@).to_set().union(strings_view(plates@).to_set()),
{
    let ghost start = strings_view(v@).to_set();
    let mut k: usize = 0;
    while k < plates.len()
        invariant
            k <= plates@.len(),
            text_sorted(strings_view(v@)),
            strings_view(v@).to_set() == start.union(strings_view(plates@).take(k as int).to_set()),
        decreases plates.len() - k,
    {
        let ghost before = strings_view(v@).to_set();
        insert_text(v, &plates[k]);
        proof {
            let pv = strings_view(plates@);
            assert(pv.take(k + 1) =~= pv.take(k as int).push(pv[k as int]));
            let t1 = pv.take(k + 1);
            let t0 = pv.take(k as int);
            assert(t1.to_set() =~= t0.to_set().insert(pv[k as int])) by {
                assert forall|y: Seq<char>| t1.to_set().contains(y) <==> t0.to_set().insert(pv[k as int]).contains(y) by {
                    if t1.contains(y) {
                        let i = choose|i: int| 0 <= i < t1.len() && t1[i] == y;
                        if i < k {
                            assert(t0[i] == y);
                        }
                    }
                    if t0.contains(y) {
                        let i = choose|i: int| 0 <= i < t0.len() && t0[i] == y;
                        assert(t1[i] == y);
                    }
                    if y == pv[k as int] {
                        assert(t1[k as int] == y);
                    }
                }
            }
            assert(strings_view(v@).to_set() =~= start.union(pv.take(k + 1).to_set()));
        }
        k = k + 1;
    }
    assert(strings_view(plates@).take(plates@.len() as int) =~= strings_view(plates@));
}

/// Gathers the printers of a catalog by model, in model order, with the
/// plates any printer of the model supports.
pub fn group_models(machines: &Vec<MachineEntry>) -> (r: Vec<ModelGroup>)
    requires
        machines@.len() < usize::MAX,
    ensures
        groups_ok(entries_view(machines@), machines@.len() as nat, r@),
{
    let ghost ms = entries_view(machines@);
    let mut groups: Vec<ModelGroup> = Vec::new();
    let mut i: usize = 0;
    while i < machines.len()
        invariant
            i <= machines@.len() < usize::MAX,
            ms == entries_view(machines@),
            groups_ok(ms, i as nat, groups@),
            forall|k: int| 0 <= k < groups@.len() ==> forall|m: int| 0 <= m < (#[trigger] groups@[k]).members@.len() ==> groups@[k].members@[m] < i,
        decreases machines.len() - i,
    {
        let model = &machines[i].model_key;
        let ghost mi = ms[i as int];
        assert(mi == entry_view(machines@[i as int]));
        let ghost old_groups = groups@;
        let mut k: usize = 0;
        while k < groups.len() && !str_eq(groups[k].model_key.as_str(), model.as_str())
            invariant
                k <= groups@.len(),
                forall|m: int| 0 <= m < k ==> (#[trigger] groups@[m]).model_key@ != model@,
            decreases groups.len() - k,
        {
            k = k + 1;
        }
        if k < groups.len() {
            let mut g = groups.remove(k);
            proof {
                assert(g == old_groups[k as int]);
                assert(g.model_key@ == model@);
            }
            let ghost old_members = g.members@;
            let ghost old_plates = strings_view(g.plate_keys@);
            g.members.push(i);
            add_plates(&mut g.plate_keys, &machines[i].plate_keys);
            groups.insert(k, g);
            proof {
                assert(groups@ =~= old_groups.update(k as int, g));
                lemma_group_step(ms, i as nat, old_groups, groups@, k as int);
            }
        } else {
            let mut plates: Vec<String> = Vec::new();
            assert(strings_view(plates@) =~= Seq::<Seq<char>>::empty());
            assert(strings_view(plates@).to_set() =~= Set::<Seq<char>>::empty());
            add_plates(&mut plates, &machines[i].plate_keys);
            let mut members: Vec<usize> = Vec::new();
            members.push(i);
            let g = ModelGroup { model_key: model.clone(), plate_keys: plates, members };
            let mut p: usize = 0;
            while p < groups.len() && text_less(groups[p].model_key.as_str(), model.as_str())
                invariant
                    p <= groups@.len(),
                    forall|m: int| 0 <= m < p ==> text_lt((#[trigger] groups@[m]).model_key@, model@),
                decreases groups.len() - p,
            {
                p = p + 1;
            }
            proof {
                if p < groups@.len() {
                    lemma_text_lt_total(groups@[p as int].model_key@, model@);
                }
            }
            groups.insert(p, g);
            proof {
                lemma_group_new(ms, i as nat, old_groups, groups@, p as int);
            }
        }
        i = i + 1;
    }
    groups
}

} // verus!
