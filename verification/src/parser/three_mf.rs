//! What a sliced 3MF archive holds: which entries are filament settings,
//! plate G-code or plate metadata, which thumbnails belong to a plate, what
//! the slicer predicted for each plate, and in which order plates are read.
use super::gcode::parse_u32_seq;
use super::preset_base_spec;
use crate::error::AppError;
use crate::text::{
    all_digits, ascii_words, ascii_words_from, before_first, before_first_seq, chars_of,
    ends_with, ends_with_seq, is_unicode_whitespace, is_whitespace, next_ascii_word,
    slice_chars, split_pieces, split_seq, starts_with, starts_with_seq, str_eq, strip_prefix,
    strip_prefix_seq, strip_suffix, strip_suffix_seq, strs_view, trim, trim_seq,
};
use vstd::multiset::Multiset;
use vstd::prelude::*;

verus! {

/// Brand and series of a slicer preset: `Bambu Lab` and the preset's base
/// name without the material, for Bambu presets; no brand and the whole
/// preset otherwise.
pub open spec fn normalize_preset_spec(preset_id: Seq<char>, material: Seq<char>) -> (Seq<char>, Seq<char>) {
    let name = match strip_prefix_seq(preset_id, "Bambu Lab "@) {
        Some(n) => Some(n),
        None => strip_prefix_seq(preset_id, "Bambu "@),
    };
    match name {
        None => (Seq::empty(), preset_id),
        Some(n) => {
            let base = preset_base_spec(n);
            let series = match strip_prefix_seq(base, material) {
                Some(rest) => trim_seq(rest),
                None => trim_seq(base),
            };
            ("Bambu Lab"@, series)
        },
    }
}

/// The brand and series a filament preset names; see `normalize_preset_spec`.
pub fn normalize_preset(preset_id: &str, material: &str) -> (r: (String, String))
    ensures
        (r.0@, r.1@) == normalize_preset_spec(preset_id@, material@),
{
    let name = match strip_prefix(preset_id, "Bambu Lab ") {
        Some(n) => Some(n),
        None => strip_prefix(preset_id, "Bambu "),
    };
    match name {
        None => (String::new(), owned(preset_id)),
        Some(n) => {
            let base = super::preset_base(n);
            let series = match strip_prefix(base, material) {
                Some(rest) => trim(rest),
                None => trim(base),
            };
            (owned("Bambu Lab"), owned(series))
        },
    }
}

/// An entry named `Metadata/project_settings.config`,
/// `Metadata/filament_settings.config` or `Metadata/filament_settings_*.config`.
pub open spec fn filament_config_spec(name: Seq<char>) -> bool {
    match strip_prefix_seq(name, "Metadata/"@) {
        None => false,
        Some(f) => f == "project_settings.config"@ || f == "filament_settings.config"@ || (
        starts_with_seq(f, "filament_settings_"@) && ends_with_seq(f, ".config"@)),
    }
}

/// Whether an archive entry holds filament settings.
pub fn is_filament_config(name: &str) -> (r: bool)
    ensures
        r == filament_config_spec(name@),
{
    let file_name = match strip_prefix(name, "Metadata/") {
        Some(f) => f,
        None => return false,
    };
    str_eq(file_name, "project_settings.config") || str_eq(file_name, "filament_settings.config")
        || (starts_with(file_name, "filament_settings_") && ends_with(file_name, ".config"))
}

/// `Metadata/<prefix><n><suffix>` with `n` a run of ASCII digits that fits a `u32`.
pub open spec fn plate_entry_spec(name: Seq<char>, prefix: Seq<char>, suffix: Seq<char>) -> Option<u32> {
    match strip_prefix_seq(name, "Metadata/"@) {
        None => None,
        Some(a) => match strip_prefix_seq(a, prefix) {
            None => None,
            Some(b) => match strip_suffix_seq(b, suffix) {
                None => None,
                Some(v) => if v.len() > 0 && all_digits(v) {
                    parse_u32_seq(v)
                } else {
                    None
                },
            },
        },
    }
}

/// Whether a string is non-empty and made of ASCII digits only.
fn all_ascii_digits(s: &str) -> (r: bool)
    ensures
        r == (s@.len() > 0 && all_digits(s@)),
{
    let v = chars_of(s);
    if v.len() == 0 {
        return false;
    }
    let mut i: usize = 0;
    while i < v.len()
        invariant
            i <= v@.len(),
            v@ == s@,
            forall|k: int| 0 <= k < i ==> crate::text::is_ascii_digit(#[trigger] v@[k]),
        decreases v.len() - i,
    {
        if !('0' <= v[i] && v[i] <= '9') {
            assert(!crate::text::is_ascii_digit(v@[i as int]));
            return false;
        }
        i = i + 1;
    }
    true
}

/// The plate number of an entry `Metadata/<prefix><n><suffix>`.
pub fn plate_entry_index(name: &str, prefix: &str, suffix: &str) -> (r: Option<u32>)
    ensures
        r == plate_entry_spec(name@, prefix@, suffix@),
{
    let a = match strip_prefix(name, "Metadata/") {
        Some(a) => a,
        None => return None,
    };
    let b = match strip_prefix(a, prefix) {
        Some(b) => b,
        None => return None,
    };
    let v = match strip_suffix(b, suffix) {
        Some(v) => v,
        None => return None,
    };
    if all_ascii_digits(v) {
        super::gcode::parse_u32(v)
    } else {
        None
    }
}

/// The plate number of a plate's G-code entry, `Metadata/plate_<n>.gcode`.
pub fn plate_gcode_index(name: &str) -> (r: Option<u32>)
    ensures
        r == plate_entry_spec(name@, "plate_"@, ".gcode"@),
{
    plate_entry_index(name, "plate_", ".gcode")
}

/// The plate number of a plate's metadata entry, `Metadata/plate_<n>.json`.
pub fn plate_json_index(name: &str) -> (r: Option<u32>)
    ensures
        r == plate_entry_spec(name@, "plate_"@, ".json"@),
{
    plate_entry_index(name, "plate_", ".json")
}

/// What an archive entry is to the reader.
#[derive(Debug, Clone, Copy, PartialEq, Eq, Structural)]
pub enum EntryKind {
    FilamentConfig,
    SliceInfo,
    PlateJson(u32),
    PlateGcode(u32),
    Other,
}

pub open spec fn entry_kind_spec(name: Seq<char>) -> EntryKind {
    if filament_config_spec(name) {
        EntryKind::FilamentConfig
    } else if name == "Metadata/slice_info.config"@ {
        EntryKind::SliceInfo
    } else if plate_entry_spec(name, "plate_"@, ".json"@) is Some {
        EntryKind::PlateJson(plate_entry_spec(name, "plate_"@, ".json"@)->0)
    } else if plate_entry_spec(name, "plate_"@, ".gcode"@) is Some {
        EntryKind::PlateGcode(plate_entry_spec(name, "plate_"@, ".gcode"@)->0)
    } else {
        EntryKind::Other
    }
}

/// Sorts an archive entry: filament settings first, then the slice
/// information, then plate metadata, then plate G-code.
pub fn entry_kind(name: &str) -> (r: EntryKind)
    ensures
        r == entry_kind_spec(name@),
{
    if is_filament_config(name) {
        return EntryKind::FilamentConfig;
    }
    if str_eq(name, "Metadata/slice_info.config") {
        return EntryKind::SliceInfo;
    }
    if let Some(index) = plate_json_index(name) {
        return EntryKind::PlateJson(index);
    }
    if let Some(index) = plate_gcode_index(name) {
        return EntryKind::PlateGcode(index);
    }
    EntryKind::Other
}

/// The text of a natural number in decimal, as `Display` writes it.
pub open spec fn decimal_text(n: nat) -> Seq<char>
    decreases n,
{
    if n < 10 {
        seq![('0' as u32 + n) as char]
    } else {
        decimal_text(n / 10) + seq![('0' as u32 + n % 10) as char]
    }
}

/// Appends the decimal text of `n`.
fn append_decimal(s: &mut String, n: u32)
    ensures
        final(s)@ == old(s)@ + decimal_text(n as nat),
    decreases n,
{
    if n >= 10 {
        append_decimal(s, n / 10);
    }
    let d = (n % 10) as usize;
    let digits = "0123456789";
    proof {
        reveal_strlit("0123456789");
    }
    let digit = slice_chars(digits, d, d + 1);
    assert(digit@ =~= seq![('0' as u32 + (n % 10) as nat) as char]) by {
        assert(digit@[0] == "0123456789"@[d as int]);
    }
    s.append(digit);
}

pub open spec fn plate_thumbnail_names(plate_index: u32) -> Seq<Seq<char>> {
    seq![
        "Metadata/plate_"@ + decimal_text(plate_index as nat) + ".png"@,
        "Metadata/plate_"@ + decimal_text(plate_index as nat) + "_small.png"@,
        "Metadata/plate_no_light_"@ + decimal_text(plate_index as nat) + ".png"@,
    ]
}

pub open spec fn project_thumbnail_names() -> Seq<Seq<char>> {
    seq!["Auxiliaries/.thumbnails/thumbnail_middle.png"@, "Auxiliaries/.thumbnails/thumbnail_3mf.png"@]
}

/// The thumbnail names to try for a plate, in order of preference.
pub open spec fn thumbnail_candidates(plate_index: u32, prefer_project: bool) -> Seq<Seq<char>> {
    if prefer_project {
        project_thumbnail_names() + plate_thumbnail_names(plate_index)
    } else {
        plate_thumbnail_names(plate_index) + project_thumbnail_names()
    }
}

pub open spec fn string_seq_view(v: Seq<String>) -> Seq<Seq<char>> {
    v.map_values(|s: String| s@)
}

/// The candidates that are present, in their order.
pub open spec fn present_in(cands: Seq<Seq<char>>, names: Seq<Seq<char>>) -> Seq<Seq<char>>
    decreases cands.len(),
{
    if cands.len() == 0 {
        seq![]
    } else {
        present_in(cands.drop_last(), names) + (if names.contains(cands.last()) {
            seq![cands.last()]
        } else {
            seq![]
        })
    }
}

/// Whether `name` is among `names`.
fn contains_name(names: &Vec<String>, name: &str) -> (r: bool)
    ensures
        r == string_seq_view(names@).contains(name@),
{
    let mut i: usize = 0;
    while i < names.len()
        invariant
            i <= names@.len(),
            forall|k: int| 0 <= k < i ==> names@[k]@ != name@,
        decreases names.len() - i,
    {
        if str_eq(names[i].as_str(), name) {
            assert(string_seq_view(names@)[i as int] == name@);
            return true;
        }
        i = i + 1;
    }
    proof {
        if string_seq_view(names@).contains(name@) {
            let k = choose|k: int|
                0 <= k < string_seq_view(names@).len() && string_seq_view(names@)[k] == name@;
            assert(names@[k]@ == name@);
        }
    }
    false
}

fn owned(s: &str) -> (r: String)
    ensures
        r@ == s@,
{
    s.to_owned()
}

/// The thumbnails of a plate that the archive holds, best first. A project
/// with a single plate prefers the project's own thumbnail.
pub fn thumbnail_entries(plate_index: u32, entry_names: &Vec<String>, prefer_project_thumbnail: bool) -> (r: Vec<String>)
    ensures
        string_seq_view(r@) == present_in(
            thumbnail_candidates(plate_index, prefer_project_thumbnail),
            string_seq_view(entry_names@),
        ),
{
    let mut plate_png = owned("Metadata/plate_");
    append_decimal(&mut plate_png, plate_index);
    plate_png.append(".png");
    let mut plate_small = owned("Metadata/plate_");
    append_decimal(&mut plate_small, plate_index);
    plate_small.append("_small.png");
    let mut plate_no_light = owned("Metadata/plate_no_light_");
    append_decimal(&mut plate_no_light, plate_index);
    plate_no_light.append(".png");
    let middle = owned("Auxiliaries/.thumbnails/thumbnail_middle.png");
    let three_mf = owned("Auxiliaries/.thumbnails/thumbnail_3mf.png");
    let mut candidates: Vec<String> = Vec::new();
    if prefer_project_thumbnail {
        candidates.push(middle);
        candidates.push(three_mf);
        candidates.push(plate_png);
        candidates.push(plate_small);
        candidates.push(plate_no_light);
    } else {
        candidates.push(plate_png);
        candidates.push(plate_small);
        candidates.push(plate_no_light);
        candidates.push(middle);
        candidates.push(three_mf);
    }
    let ghost cands = thumbnail_candidates(plate_index, prefer_project_thumbnail);
    assert(string_seq_view(candidates@) =~= cands);
    let mut out: Vec<String> = Vec::new();
    let mut i: usize = 0;
    while i < candidates.len()
        invariant
            i <= candidates@.len(),
            string_seq_view(candidates@) == cands,
            string_seq_view(out@) == present_in(
                cands.take(i as int),
                string_seq_view(entry_names@),
            ),
        decreases candidates.len() - i,
    {
        let name = candidates[i].as_str();
        let keep = contains_name(entry_names, name);
        assert(cands.take(i + 1).drop_last() =~= cands.take(i as int));
        assert(cands.take(i + 1).last() == name@);
        if keep {
            let ghost before = string_seq_view(out@);
            out.push(owned(name));
            assert(string_seq_view(out@) =~= before + seq![name@]);
        } else {
            assert(string_seq_view(out@) =~= string_seq_view(out@) + Seq::<Seq<char>>::empty());
        }
        i = i + 1;
    }
    assert(cands.take(candidates@.len() as int) =~= cands);
    out
}

/// `s.trim_end_matches('/')`.
pub open spec fn trim_end_slashes(s: Seq<char>) -> Seq<char>
    decreases s.len(),
{
    if s.len() > 0 && s.last() == '/' {
        trim_end_slashes(s.drop_last())
    } else {
        s
    }
}

/// The quoted value of a word `name="value"` (a trailing `/` ignored).
pub open spec fn attribute_value(word: Seq<char>, name: Seq<char>) -> Option<Seq<char>> {
    match strip_prefix_seq(word, name) {
        None => None,
        Some(a) => match strip_prefix_seq(a, "="@) {
            None => None,
            Some(b) => match strip_prefix_seq(trim_end_slashes(b), "\""@) {
                None => None,
                Some(c) => strip_suffix_seq(c, "\""@),
            },
        },
    }
}

/// The first word of a tag that carries the attribute.
pub open spec fn first_attribute(ws: Seq<Seq<char>>, name: Seq<char>) -> Option<Seq<char>>
    decreases ws.len(),
{
    if ws.len() == 0 {
        None
    } else {
        match attribute_value(ws[0], name) {
            Some(v) => Some(v),
            None => first_attribute(ws.drop_first(), name),
        }
    }
}

/// The value of attribute `name` in an XML start tag.
pub open spec fn xml_attribute_spec(tag: Seq<char>, name: Seq<char>) -> Option<Seq<char>> {
    first_attribute(ascii_words(tag), name)
}

pub open spec fn opt_view(o: Option<&str>) -> Option<Seq<char>> {
    match o {
        Some(s) => Some(s@),
        None => None,
    }
}

/// `word.trim_end_matches('/')`.
fn trim_end_slashes_exec(word: &str) -> (r: &str)
    ensures
        r@ == trim_end_slashes(word@),
{
    let v = chars_of(word);
    let mut j: usize = v.len();
    assert(v@.take(j as int) =~= v@);
    while j > 0 && v[j - 1] == '/'
        invariant
            j <= v@.len(),
            trim_end_slashes(v@) == trim_end_slashes(v@.take(j as int)),
        decreases j,
    {
        assert(v@.take(j as int).drop_last() =~= v@.take(j - 1));
        j = j - 1;
    }
    let r = slice_chars(word, 0, j);
    assert(r@ =~= v@.take(j as int));
    proof {
        if j > 0 {
            assert(v@.take(j as int).last() == v@[j - 1]);
        }
    }
    r
}

fn attribute_value_exec<'a>(word: &'a str, name: &str) -> (r: Option<&'a str>)
    ensures
        opt_view(r) == attribute_value(word@, name@),
{
    let a = match strip_prefix(word, name) {
        Some(a) => a,
        None => return None,
    };
    let b = match strip_prefix(a, "=") {
        Some(b) => b,
        None => return None,
    };
    let c = match strip_prefix(trim_end_slashes_exec(b), "\"") {
        Some(c) => c,
        None => return None,
    };
    strip_suffix(c, "\"")
}

/// The value of attribute `name` in an XML start tag: the first word
/// `name="value"`, quotes removed.
pub fn xml_attribute<'a>(tag: &'a str, name: &str) -> (r: Option<&'a str>)
    ensures
        opt_view(r) == xml_attribute_spec(tag@, name@),
{
    let v = chars_of(tag);
    let mut j: usize = 0;
    while j < v.len()
        invariant
            j <= v@.len(),
            v@ == tag@,
            xml_attribute_spec(tag@, name@) == first_attribute(ascii_words_from(v@, j as int), name@),
        decreases v.len() - j,
    {
        match next_ascii_word(&v, j) {
            None => {
                return None;
            },
            Some((a, b)) => {
                let word = slice_chars(tag, a, b);
                let ghost rest = ascii_words_from(v@, b as int);
                assert((seq![word@] + rest).drop_first() =~= rest);
                assert((seq![word@] + rest)[0] == word@);
                if let Some(value) = attribute_value_exec(word, name) {
                    return Some(value);
                }
                j = b;
            },
        }
    }
    None
}

/// The start tag of an element's text: everything before its first `>`.
pub open spec fn tag_of(element: Seq<char>) -> Seq<char> {
    before_first_seq(element, ">"@)
}

/// The `value` of the first `<metadata key="key" value="..."/>` in the text.
pub open spec fn metadata_in(pieces: Seq<Seq<char>>, key: Seq<char>) -> Option<Seq<char>>
    decreases pieces.len(),
{
    if pieces.len() == 0 {
        None
    } else {
        let tag = tag_of(pieces[0]);
        if xml_attribute_spec(tag, "key"@) == Some(key) && xml_attribute_spec(tag, "value"@) is Some {
            xml_attribute_spec(tag, "value"@)
        } else {
            metadata_in(pieces.drop_first(), key)
        }
    }
}

pub open spec fn plate_metadata_spec(contents: Seq<char>, key: Seq<char>) -> Option<Seq<char>> {
    metadata_in(split_seq(contents, "<metadata"@).drop_first(), key)
}

/// The `value` attribute of the first `metadata` element whose `key` is `key`.
pub fn plate_metadata_value<'a>(contents: &'a str, key: &str) -> (r: Option<&'a str>)
    ensures
        opt_view(r) == plate_metadata_spec(contents@, key@),
{
    proof {
        reveal_strlit("<metadata");
    }
    let pieces = split_pieces(contents, "<metadata");
    let ghost all = strs_view(pieces@);
    let mut i: usize = 1;
    assert(all.len() > 0);
    while i < pieces.len()
        invariant
            1 <= i <= pieces@.len(),
            all == strs_view(pieces@),
            all =~= split_seq(contents@, "<metadata"@),
            plate_metadata_spec(contents@, key@) == metadata_in(all.skip(i as int), key@),
        decreases pieces.len() - i,
    {
        let element = pieces[i];
        assert(all.skip(i as int)[0] == element@);
        assert(all.skip(i as int).drop_first() =~= all.skip(i + 1));
        let tag = before_first(element, ">");
        let found_key = xml_attribute(tag, "key");
        let key_matches = match found_key {
            Some(k) => str_eq(k, key),
            None => false,
        };
        if key_matches {
            let value = xml_attribute(tag, "value");
            if value.is_some() {
                return value;
            }
        }
        i = i + 1;
    }
    assert(all.skip(i as int) =~= Seq::<Seq<char>>::empty());
    None
}

/// A `<plate` element opens only where whitespace or `>` follows the name.
pub open spec fn opens_plate(element: Seq<char>) -> bool {
    element.len() > 0 && (is_unicode_whitespace(element[0]) || element[0] == '>')
}

/// An attribute of a plate, from its start tag or else from its metadata.
pub open spec fn plate_value(element: Seq<char>, name: Seq<char>) -> Option<u32> {
    let tag = tag_of(element);
    let body = before_first_seq(element, "</plate>"@);
    let text = match xml_attribute_spec(tag, name) {
        Some(v) => Some(v),
        None => plate_metadata_spec(body, name),
    };
    match text {
        Some(t) => parse_u32_seq(t),
        None => None,
    }
}

/// The predicted seconds of each plate, in document order; a later plate
/// with the same index replaces an earlier one.
pub open spec fn predictions_in(pieces: Seq<Seq<char>>) -> Seq<(u32, u32)>
    decreases pieces.len(),
{
    if pieces.len() == 0 {
        seq![]
    } else {
        let rest = predictions_in(pieces.drop_last());
        let e = pieces.last();
        if opens_plate(e) && plate_value(e, "index"@) is Some && plate_value(e, "prediction"@) is Some {
            rest.push((plate_value(e, "index"@)->0, plate_value(e, "prediction"@)->0))
        } else {
            rest
        }
    }
}

pub open spec fn slice_predictions_spec(contents: Seq<char>) -> Seq<(u32, u32)> {
    predictions_in(split_seq(contents, "<plate"@).drop_first())
}

/// An attribute of a plate as a number; see `plate_value`.
fn plate_value_exec(element: &str, name: &str) -> (r: Option<u32>)
    ensures
        r == plate_value(element@, name@),
{
    let tag = before_first(element, ">");
    let text = match xml_attribute(tag, name) {
        Some(v) => Some(v),
        None => plate_metadata_value(before_first(element, "</plate>"), name),
    };
    match text {
        Some(t) => super::gcode::parse_u32(t),
        None => None,
    }
}

/// The slicer's predicted print time of each plate, as `(plate, seconds)`
/// pairs in document order; a later pair for the same plate wins.
pub fn slice_predictions(contents: &str) -> (r: Vec<(u32, u32)>)
    ensures
        r@ == slice_predictions_spec(contents@),
{
    proof {
        reveal_strlit("<plate");
    }
    let pieces = split_pieces(contents, "<plate");
    let ghost all = strs_view(pieces@);
    let mut out: Vec<(u32, u32)> = Vec::new();
    assert(all.len() > 0);
    let mut i: usize = 1;
    while i < pieces.len()
        invariant
            1 <= i <= pieces@.len(),
            all == strs_view(pieces@),
            all =~= split_seq(contents@, "<plate"@),
            out@ == predictions_in(all.subrange(1, i as int)),
        decreases pieces.len() - i,
    {
        let element = pieces[i];
        assert(all.subrange(1, i + 1).drop_last() =~= all.subrange(1, i as int));
        assert(all.subrange(1, i + 1).last() == element@);
        let v = chars_of(element);
        let opens = v.len() > 0 && (is_whitespace(v[0]) || v[0] == '>');
        if opens {
            if let Some(index) = plate_value_exec(element, "index") {
                if let Some(prediction) = plate_value_exec(element, "prediction") {
                    out.push((index, prediction));
                }
            }
        }
        i = i + 1;
    }
    assert(all.subrange(1, i as int) =~= all.drop_first());
    out
}

/// The prediction for plate `index`: the last pair that names it.
pub open spec fn prediction_for(pairs: Seq<(u32, u32)>, index: u32) -> Option<u32>
    decreases pairs.len(),
{
    if pairs.len() == 0 {
        None
    } else if pairs.last().0 == index {
        Some(pairs.last().1)
    } else {
        prediction_for(pairs.drop_last(), index)
    }
}

/// The estimated time of a plate: the slicer's prediction, else what the
/// G-code declares.
pub fn plate_estimated_seconds(predictions: &Vec<(u32, u32)>, index: u32, declared: Option<u32>) -> (r: Option<u32>)
    ensures
        r == (match prediction_for(predictions@, index) {
            Some(p) => Some(p),
            None => declared,
        }),
{
    let mut i: usize = predictions.len();
    assert(predictions@.take(i as int) =~= predictions@);
    while i > 0
        invariant
            i <= predictions@.len(),
            prediction_for(predictions@, index) == prediction_for(
                predictions@.take(i as int),
                index,
            ),
        decreases i,
    {
        let (plate, seconds) = predictions[i - 1];
        assert(predictions@.take(i as int).drop_last() =~= predictions@.take(i - 1));
        assert(predictions@.take(i as int).last() == (plate, seconds));
        if plate == index {
            return Some(seconds);
        }
        i = i - 1;
    }
    declared
}

pub open spec fn indices_of(entries: Seq<(u32, String)>) -> Seq<u32> {
    entries.map_values(|e: (u32, String)| e.0)
}

pub open spec fn strictly_increasing(s: Seq<u32>) -> bool {
    forall|i: int, j: int| 0 <= i < j < s.len() ==> s[i] < s[j]
}

pub open spec fn has_duplicate(s: Seq<u32>) -> bool {
    exists|i: int, j: int| 0 <= i < j < s.len() && s[i] == s[j]
}

/// Puts the plates' G-code entries in plate order. No plate means the
/// project was never sliced; two entries for one plate make the file invalid.
pub fn order_plate_entries(entries: Vec<(u32, String)>) -> (r: Result<Vec<(u32, String)>, AppError>)
    ensures
        entries@.len() == 0 ==> r == Err::<Vec<(u32, String)>, AppError>(AppError::UnslicedProject),
        entries@.len() > 0 && has_duplicate(indices_of(entries@)) ==> r == Err::<
            Vec<(u32, String)>,
            AppError,
        >(AppError::InvalidFile),
        entries@.len() > 0 && !has_duplicate(indices_of(entries@)) ==> r is Ok,
        r matches Ok(sorted) ==> {
            &&& sorted@.to_multiset() == entries@.to_multiset()
            &&& strictly_increasing(indices_of(sorted@))
        },
{
    if entries.len() == 0 {
        return Err(AppError::UnslicedProject);
    }
    let mut sorted: Vec<(u32, String)> = Vec::new();
    let ghost given = entries@;
    let mut rest = entries;
    proof {
        sorted@.to_multiset_ensures();
        vstd::multiset::lemma_multiset_empty_len(sorted@.to_multiset());
        assert(sorted@.to_multiset() =~= Multiset::empty());
        assert(sorted@.to_multiset().add(rest@.to_multiset()) =~= rest@.to_multiset());
    }
    // Insertion sort: take the last remaining entry and put it in place.
    while rest.len() > 0
        invariant
            given.len() > 0,
            given == entries@,
            sorted@.to_multiset().add(rest@.to_multiset()) == given.to_multiset(),
            sorted_by_index(sorted@),
        decreases rest.len(),
    {
        let ghost before_rest = rest@;
        let ghost before_sorted = sorted@;
        let item = rest.pop().unwrap();
        let mut k: usize = sorted.len();
        while k > 0 && sorted[k - 1].0 > item.0
            invariant
                k <= sorted@.len(),
                sorted@ == before_sorted,
                forall|m: int| k <= m < sorted@.len() ==> sorted@[m].0 > item.0,
            decreases k,
        {
            k = k - 1;
        }
        proof {
            lemma_insert_sorted(before_sorted, k as int, item);
            lemma_insert_multiset(before_sorted, k as int, item);
            assert(before_rest =~= rest@.push(item));
            rest@.to_multiset_ensures();
            lemma_move_one(before_sorted, before_sorted.insert(k as int, item), before_rest, rest@, item, given);
        }
        sorted.insert(k, item);
    }
    proof {
        rest@.to_multiset_ensures();
        vstd::multiset::lemma_multiset_empty_len(rest@.to_multiset());
        assert(rest@.to_multiset() =~= Multiset::empty());
        assert(sorted@.to_multiset().add(Multiset::empty()) =~= sorted@.to_multiset());
    }
    let mut i: usize = 1;
    while i < sorted.len()
        invariant
            1 <= i,
            given.len() > 0,
            given == entries@,
            sorted@.to_multiset() == given.to_multiset(),
            forall|a: int, b: int| 0 <= a < b < sorted@.len() ==> sorted@[a].0 <= sorted@[b].0,
            forall|a: int, b: int| 0 <= a < b < i && b < sorted@.len() ==> sorted@[a].0 < sorted@[b].0,
        decreases sorted.len() - i,
    {
        if sorted[i - 1].0 == sorted[i].0 {
            proof {
                lemma_duplicate_survives_permutation(sorted@, given, i - 1, i as int);
            }
            return Err(AppError::InvalidFile);
        }
        i = i + 1;
    }
    proof {
        assert(strictly_increasing(indices_of(sorted@)));
        lemma_no_duplicate_after_sorting(sorted@, given);
    }
    Ok(sorted)
}

pub open spec fn sorted_by_index(s: Seq<(u32, String)>) -> bool {
    forall|i: int, j: int| 0 <= i < j < s.len() ==> s[i].0 <= s[j].0
}

proof fn lemma_insert_sorted(s: Seq<(u32, String)>, k: int, x: (u32, String))
    requires
        sorted_by_index(s),
        0 <= k <= s.len(),
        forall|m: int| k <= m < s.len() ==> s[m].0 > x.0,
        k == 0 || s[k - 1].0 <= x.0,
    ensures
        sorted_by_index(s.insert(k, x)),
{
    let t = s.insert(k, x);
    assert forall|i: int, j: int| 0 <= i < j < t.len() implies t[i].0 <= t[j].0 by {
        if j < k {
        } else if j == k {
            assert(s[i].0 <= s[k - 1].0);
        } else if i < k {
            assert(t[j] == s[j - 1]);
        } else if i == k {
            assert(t[j] == s[j - 1]);
        } else {
            assert(t[i] == s[i - 1] && t[j] == s[j - 1]);
        }
    }
}

proof fn lemma_insert_multiset<T>(s: Seq<T>, k: int, x: T)
    requires
        0 <= k <= s.len(),
    ensures
        s.insert(k, x).to_multiset() =~= s.to_multiset().insert(x),
{
    assert(s.insert(k, x) =~= s.take(k).push(x) + s.skip(k));
    vstd::seq_lib::lemma_multiset_commutative(s.take(k).push(x), s.skip(k));
    vstd::seq_lib::lemma_multiset_commutative(s.take(k), s.skip(k));
    s.take(k).to_multiset_ensures();
    assert(s =~= s.take(k) + s.skip(k));
}

proof fn lemma_move_one<T>(
    sorted_old: Seq<T>,
    sorted_new: Seq<T>,
    rest_old: Seq<T>,
    rest_new: Seq<T>,
    item: T,
    given: Seq<T>,
)
    requires
        sorted_new.to_multiset() == sorted_old.to_multiset().insert(item),
        rest_old.to_multiset() == rest_new.to_multiset().insert(item),
        sorted_old.to_multiset().add(rest_old.to_multiset()) == given.to_multiset(),
    ensures
        sorted_new.to_multiset().add(rest_new.to_multiset()) == given.to_multiset(),
{
    assert(sorted_new.to_multiset().add(rest_new.to_multiset()) =~= sorted_old.to_multiset().add(
        rest_old.to_multiset(),
    ));
}

/// A repeated plate number stays repeated in any rearrangement.
proof fn lemma_duplicate_survives_permutation(
    s: Seq<(u32, String)>,
    given: Seq<(u32, String)>,
    a: int,
    b: int,
)
    requires
        s.to_multiset() == given.to_multiset(),
        0 <= a < b < s.len(),
        s[a].0 == s[b].0,
    ensures
        has_duplicate(indices_of(given)),
{
    s.to_multiset_ensures();
    given.to_multiset_ensures();
    let ix = indices_of(given);
    if s[a] == s[b] {
        // The same entry twice: it occurs twice in the given too.
        let e = s[a];
        assert(s.to_multiset().count(e) >= 2) by {
            lemma_count_two(s, a, b);
        }
        lemma_two_occurrences(given, e);
    } else {
        assert(s.contains(s[a]));
        assert(s.contains(s[b]));
        assert(s.to_multiset().count(s[a]) > 0);
        assert(s.to_multiset().count(s[b]) > 0);
        assert(given.contains(s[a]));
        assert(given.contains(s[b]));
        let i = choose|i: int| 0 <= i < given.len() && given[i] == s[a];
        let j = choose|j: int| 0 <= j < given.len() && given[j] == s[b];
        assert(ix[i] == ix[j]);
        if i < j {
            assert(0 <= i < j < ix.len() && ix[i] == ix[j]);
        } else {
            assert(0 <= j < i < ix.len() && ix[j] == ix[i]);
        }
    }
}

proof fn lemma_count_two<T>(s: Seq<T>, a: int, b: int)
    requires
        0 <= a < b < s.len(),
        s[a] == s[b],
    ensures
        s.to_multiset().count(s[a]) >= 2,
{
    let e = s[a];
    let left = s.take(b);
    let right = s.skip(b);
    assert(s =~= left + right);
    vstd::seq_lib::lemma_multiset_commutative(left, right);
    left.to_multiset_ensures();
    right.to_multiset_ensures();
    assert(left.contains(e)) by {
        assert(left[a] == e);
    }
    assert(right[0] == e);
    assert(right.contains(e));
}

proof fn lemma_two_occurrences(s: Seq<(u32, String)>, e: (u32, String))
    requires
        s.to_multiset().count(e) >= 2,
    ensures
        has_duplicate(indices_of(s)),
    decreases s.len(),
{
    s.to_multiset_ensures();
    let ix = indices_of(s);
    assert(s.len() > 0);
    let last = s.last();
    let init = s.drop_last();
    assert(s =~= init.push(last));
    init.to_multiset_ensures();
    if last == e {
        assert(init.to_multiset().count(e) >= 1);
        assert(init.contains(e));
        let i = choose|i: int| 0 <= i < init.len() && init[i] == e;
        assert(ix[i] == ix[s.len() - 1]);
    } else {
        assert(init.to_multiset().count(e) >= 2);
        lemma_two_occurrences(init, e);
        let ix2 = indices_of(init);
        let (i, j) = choose|i: int, j: int| 0 <= i < j < ix2.len() && ix2[i] == ix2[j];
        assert(ix[i] == ix2[i] && ix[j] == ix2[j]);
    }
}

/// A sorted arrangement without equal neighbours shows that no plate repeats.
proof fn lemma_no_duplicate_after_sorting(s: Seq<(u32, String)>, given: Seq<(u32, String)>)
    requires
        s.to_multiset() == given.to_multiset(),
        strictly_increasing(indices_of(s)),
    ensures
        !has_duplicate(indices_of(given)),
{
    s.to_multiset_ensures();
    given.to_multiset_ensures();
    let ix = indices_of(given);
    if has_duplicate(ix) {
        let (i, j) = choose|i: int, j: int| 0 <= i < j < ix.len() && ix[i] == ix[j];
        assert(given.contains(given[i]));
        assert(given.contains(given[j]));
        assert(given.to_multiset().count(given[i]) > 0);
        assert(given.to_multiset().count(given[j]) > 0);
        assert(s.contains(given[i]));
        assert(s.contains(given[j]));
        let a = choose|a: int| 0 <= a < s.len() && s[a] == given[i];
        let b = choose|b: int| 0 <= b < s.len() && s[b] == given[j];
        assert(indices_of(s)[a] == indices_of(s)[b]);
        if a == b {
            // The same entry occurs twice in the given, hence twice in `s`.
            assert(given[i] == given[j]);
            lemma_count_two(given, i, j);
            lemma_two_occurrences(s, given[i]);
            let (p, q) = choose|p: int, q: int|
                0 <= p < q < indices_of(s).len() && indices_of(s)[p] == indices_of(s)[q];
            assert(indices_of(s)[p] < indices_of(s)[q]);
        } else if a < b {
            assert(indices_of(s)[a] < indices_of(s)[b]);
        } else {
            assert(indices_of(s)[b] < indices_of(s)[a]);
        }
    }
}

/// A word of a preset name: not empty, no whitespace and no `@`.
pub open spec fn preset_word(w: Seq<char>) -> bool {
    w.len() > 0 && forall|i: int| 0 <= i < w.len() ==> !is_unicode_whitespace(#[trigger] w[i]) && w[i] != '@'
}

proof fn lemma_trim_of_word_text(t: Seq<char>)
    requires
        t.len() > 0,
        !is_unicode_whitespace(t[0]),
        !is_unicode_whitespace(t[t.len() - 1]),
    ensures
        trim_seq(t) == t,
{
    assert(crate::text::first_non_ws_from(t, 0) == 0);
    assert(t.skip(0) =~= t);
    assert(crate::text::non_ws_end_before(t, t.len() as int) == t.len());
    assert(t.take(t.len() as int) =~= t);
}

proof fn lemma_no_marker_before(t: Seq<char>, n: int, k: int)
    requires
        0 <= k <= n,
        n + 2 <= t.len(),
        forall|i: int| 0 <= i < n ==> t[i] != '@',
        t[n] == ' ',
        t[n + 1] == '@',
    ensures
        crate::text::find_from(t, " @"@, k) == Some(n),
    decreases n - k,
{
    reveal_strlit(" @");
    if k < n {
        assert(!crate::text::occurs_at(t, " @"@, k)) by {
            if crate::text::occurs_at(t, " @"@, k) {
                assert(t.subrange(k, k + 2)[1] == '@');
                assert(t[k + 1] == '@');
                if k + 1 < n {
                } else {
                    assert(t[n] == ' ');
                }
            }
        }
        lemma_no_marker_before(t, n, k + 1);
    } else {
        assert(t.subrange(n, n + 2) =~= " @"@);
    }
}

proof fn lemma_no_marker(t: Seq<char>, k: int)
    requires
        0 <= k,
        forall|i: int| 0 <= i < t.len() ==> t[i] != '@',
    ensures
        crate::text::find_from(t, " @"@, k) is None,
    decreases t.len() - k,
{
    reveal_strlit(" @");
    if k + 2 <= t.len() {
        assert(!crate::text::occurs_at(t, " @"@, k)) by {
            if crate::text::occurs_at(t, " @"@, k) {
                assert(t.subrange(k, k + 2)[1] == '@');
            }
        }
        lemma_no_marker(t, k + 1);
    }
}

proof fn lemma_material_then_series(m: Seq<char>, series: Seq<char>)
    requires
        preset_word(m),
        preset_word(series),
    ensures
        trim_seq(m + " "@ + series) == m + " "@ + series,
        forall|i: int| 0 <= i < (m + " "@ + series).len() ==> (m + " "@ + series)[i] != '@',
        strip_prefix_seq(m + " "@ + series, m) matches Some(rest) && trim_seq(rest) == series,
{
    reveal_strlit(" ");
    let n = m + " "@ + series;
    assert(n[0] == m[0]);
    assert(n[n.len() - 1] == series[series.len() - 1]);
    assert forall|i: int| 0 <= i < n.len() implies n[i] != '@' by {
        if i < m.len() {
            assert(n[i] == m[i]);
        } else if i > m.len() {
            assert(n[i] == series[i - m.len() - 1]);
        }
    }
    lemma_trim_of_word_text(n);
    let after = " "@ + series;
    assert(n.take(m.len() as int) =~= m);
    assert(n.skip(m.len() as int) =~= after);
    assert(crate::text::first_non_ws_from(after, 1) == 1);
    assert(crate::text::first_non_ws_from(after, 0) == 1) by {
        assert(after[0] == ' ');
    }
    assert(after.skip(1) =~= series);
    lemma_trim_of_word_text(series);
}

/// A Bambu Lab preset `Bambu Lab <material> <series>`, with or without a
/// machine suffix ` @<machine>`, has the series `<series>`: the brand is
/// removed whole before the material is.
pub proof fn lemma_bambu_lab_presets_keep_their_series(m: Seq<char>, series: Seq<char>, machine: Seq<char>)
    requires
        preset_word(m),
        preset_word(series),
    ensures
        normalize_preset_spec("Bambu Lab "@ + m + " "@ + series, m) == ("Bambu Lab"@, series),
        normalize_preset_spec("Bambu Lab "@ + m + " "@ + series + " @"@ + machine, m) == (
            "Bambu Lab"@,
            series,
        ),
{
    lemma_bambu_lab_preset_without_machine(m, series);
    lemma_bambu_lab_preset_with_machine(m, series, machine);
}

proof fn lemma_bambu_lab_preset_without_machine(m: Seq<char>, series: Seq<char>)
    requires
        preset_word(m),
        preset_word(series),
    ensures
        normalize_preset_spec("Bambu Lab "@ + m + " "@ + series, m) == ("Bambu Lab"@, series),
{
    reveal_strlit("Bambu Lab ");
    let brand = "Bambu Lab "@;
    let n = m + " "@ + series;
    lemma_material_then_series(m, series);
    let p1 = brand + n;
    assert(p1 =~= "Bambu Lab "@ + m + " "@ + series);
    assert(p1.take(brand.len() as int) =~= brand);
    assert(p1.skip(brand.len() as int) =~= n);
    lemma_no_marker(n, 0);
    assert(preset_base_spec(n) == n);
}

proof fn lemma_bambu_lab_preset_with_machine(m: Seq<char>, series: Seq<char>, machine: Seq<char>)
    requires
        preset_word(m),
        preset_word(series),
    ensures
        normalize_preset_spec("Bambu Lab "@ + m + " "@ + series + " @"@ + machine, m) == (
            "Bambu Lab"@,
            series,
        ),
{
    reveal_strlit("Bambu Lab ");
    reveal_strlit(" @");
    let brand = "Bambu Lab "@;
    let n = m + " "@ + series;
    lemma_material_then_series(m, series);
    let n2 = n + " @"@ + machine;
    let p2 = brand + n2;
    assert(p2 =~= "Bambu Lab "@ + m + " "@ + series + " @"@ + machine);
    assert(p2.take(brand.len() as int) =~= brand);
    assert(p2.skip(brand.len() as int) =~= n2);
    assert forall|i: int| 0 <= i < n.len() implies n2[i] != '@' by {
        assert(n2[i] == n[i]);
    }
    assert(n2[n.len() as int] == ' ');
    assert(n2[n.len() + 1int] == '@');
    lemma_no_marker_before(n2, n.len() as int, 0);
    assert(n2.take(n.len() as int) =~= n);
    assert(preset_base_spec(n2) == n);
}
} // verus!
