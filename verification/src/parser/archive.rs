//! Reading a sliced project archive: its entries (with `zip`), the filament
//! settings and plate metadata in it (with `serde_json`), and the plates it
//! holds. The G-code of each plate is handed back as bytes for the scanner.
use crate::error::AppError;
use crate::media::{zip_entry, zip_entry_read};
use crate::parser::three_mf::{
    entry_kind, entry_kind_spec, has_duplicate, indices_of, normalize_preset,
    normalize_preset_spec, order_plate_entries, present_in, slice_predictions,
    slice_predictions_spec, strictly_increasing, string_seq_view, thumbnail_candidates,
    thumbnail_entries, EntryKind,
};
use crate::text::{chars_of, str_eq, trim, trim_seq};
use vstd::prelude::*;
use vstd::utf8::{decode_utf8, valid_utf8};

verus! {

/// The names of the entries of a zip archive, in the archive's order, as
/// `zip` reads them; `None` when `zip` cannot open the archive or an entry.
/// Which bytes form an archive is `zip`'s affair and is not written out here.
pub uninterp spec fn zip_names_of(bytes: Seq<u8>) -> Option<Seq<Seq<char>>>;

/// Opens `bytes` with `zip::ZipArchive` and reads the name of each entry
/// with `by_index`. The contract ties the result to the bytes and claims
/// nothing more of the format.
#[verifier::external_body]
fn zip_names(bytes: &[u8]) -> (r: Option<Vec<String>>)
    ensures
        match r {
            Some(v) => zip_names_of(bytes@) == Some(string_seq_view(v@)),
            None => zip_names_of(bytes@) is None,
        },
{
    let mut archive = zip::ZipArchive::new(std::io::Cursor::new(bytes)).ok()?;
    let mut names = Vec::new();
    for index in 0..archive.len() {
        names.push(archive.by_index(index).ok()?.name().to_owned());
    }
    Some(names)
}

/// The contents of entry `index` of a zip archive as `zip` reads them to
/// the end: `None` when the archive or the entry cannot be opened, else the
/// bytes, or the text of the error reading gave.
pub uninterp spec fn zip_read_at_of(bytes: Seq<u8>, index: nat) -> Option<Result<Seq<u8>, Seq<char>>>;

pub open spec fn read_view(r: Option<Result<Vec<u8>, String>>) -> Option<Result<Seq<u8>, Seq<char>>> {
    match r {
        None => None,
        Some(Ok(b)) => Some(Ok(b@)),
        Some(Err(m)) => Some(Err(m@)),
    }
}

/// Opens `bytes` with `zip::ZipArchive`, opens entry `index` with `by_index`
/// and reads it to the end. The contract ties the result to the arguments
/// and claims nothing more of the format.
#[verifier::external_body]
fn zip_read_at(bytes: &[u8], index: usize) -> (r: Option<Result<Vec<u8>, String>>)
    ensures
        read_view(r) == zip_read_at_of(bytes@, index as nat),
{
    let mut archive = zip::ZipArchive::new(std::io::Cursor::new(bytes)).ok()?;
    let mut entry = archive.by_index(index).ok()?;
    let mut contents = Vec::new();
    let read = std::io::Read::read_to_end(&mut entry, &mut contents);
    Some(read.map(|_| contents).map_err(|error| error.to_string()))
}

/// `std::str::from_utf8`: the text the bytes encode, when they are UTF-8.
#[verifier::external_body]
pub(crate) fn utf8_text(bytes: &[u8]) -> (r: Option<String>)
    ensures
        r is Some <==> valid_utf8(bytes@),
        r matches Some(s) ==> s@ == decode_utf8(bytes@),
{
    std::str::from_utf8(bytes).ok().map(str::to_owned)
}

/// An element of a JSON array: a string, or any other value as its JSON text.
#[derive(Debug, Clone, PartialEq, Eq)]
pub enum JsonItem {
    Text(String),
    Other(String),
}

/// A member of a JSON object: a string, an array, or any other value as its
/// JSON text.
#[derive(Debug, Clone, PartialEq, Eq)]
pub enum JsonValue {
    Text(String),
    List(Vec<JsonItem>),
    Other(String),
}

/// A member of a JSON object as plain values; an array element is `(true, s)`
/// for the string `s` and `(false, t)` for any other value of JSON text `t`.
pub enum JsonShape {
    Text(Seq<char>),
    List(Seq<(bool, Seq<char>)>),
    Other(Seq<char>),
}

pub open spec fn item_view(i: JsonItem) -> (bool, Seq<char>) {
    match i {
        JsonItem::Text(s) => (true, s@),
        JsonItem::Other(t) => (false, t@),
    }
}

pub open spec fn value_view(v: JsonValue) -> JsonShape {
    match v {
        JsonValue::Text(s) => JsonShape::Text(s@),
        JsonValue::List(items) => JsonShape::List(items@.map_values(|i: JsonItem| item_view(i))),
        JsonValue::Other(t) => JsonShape::Other(t@),
    }
}

pub open spec fn fields_view(v: Seq<(String, JsonValue)>) -> Seq<(Seq<char>, JsonShape)> {
    v.map_values(|f: (String, JsonValue)| (f.0@, value_view(f.1)))
}

/// A JSON text as `serde_json` reads it: `None` when it is no JSON,
/// `Some(None)` when it is JSON but no object, else the object's members in
/// key order. Which texts are JSON is `serde_json`'s affair and is not
/// written out here.
pub uninterp spec fn json_document_of(text: Seq<char>) -> Option<Option<Seq<(Seq<char>, JsonShape)>>>;

/// Reads `text` with `serde_json::from_str::<Value>` and hands back the
/// members of the object, if it is one. The contract ties the result to the
/// text and claims nothing more of the parser.
#[verifier::external_body]
pub(crate) fn json_document(text: &str) -> (r: Option<Option<Vec<(String, JsonValue)>>>)
    ensures
        json_document_of(text@) == match r {
            None => None,
            Some(None) => Some(None),
            Some(Some(v)) => Some(Some(fields_view(v@))),
        },
{
    let value = serde_json::from_str::<serde_json::Value>(text).ok()?;
    Some(value.as_object().map(|object| object.iter().map(|(key, value)| (key.clone(), match value {
        serde_json::Value::String(s) => JsonValue::Text(s.clone()),
        serde_json::Value::Array(items) => JsonValue::List(items.iter().map(|item| match item {
            serde_json::Value::String(s) => JsonItem::Text(s.clone()),
            other => JsonItem::Other(other.to_string()),
        }).collect()),
        other => JsonValue::Other(other.to_string()),
    })).collect()))
}

/// Why a first pass over the entries stopped.
pub enum ScanFailure {
    /// A text entry cannot be opened.
    EntryFailed,
    /// Reading a text entry failed, with this error text.
    ReadFailed(Seq<char>),
    /// A text entry is no UTF-8.
    NotText,
    /// A filament configuration is no JSON.
    NotJson,
}

/// The error an entry that stops the first pass gives: reading a text entry
/// that is no UTF-8 fails as reading it to a string does.
pub open spec fn scan_error(e: AppError, f: ScanFailure) -> bool {
    match f {
        ScanFailure::EntryFailed => e == AppError::InvalidFile,
        ScanFailure::ReadFailed(m) => e matches AppError::Io(t) && t@ == m,
        ScanFailure::NotText => e matches AppError::Io(m) && m@
            == "stream did not contain valid UTF-8"@,
        ScanFailure::NotJson => e == AppError::InvalidFile,
    }
}

pub open spec fn has_field(fields: Seq<(Seq<char>, JsonShape)>, key: Seq<char>) -> bool {
    exists|k: int| 0 <= k < fields.len() && (#[trigger] fields[k]).0 == key
}

/// What a first pass over the entries gathers.
#[verifier::ext_equal]
pub struct ArchiveScan {
    /// The members of each filament configuration that names presets.
    pub settings: Seq<Seq<(Seq<char>, JsonShape)>>,
    /// The G-code entries: plate number and entry name.
    pub gcode: Seq<(u32, Seq<char>)>,
    /// The name of every entry.
    pub names: Seq<Seq<char>>,
    /// The plate metadata texts, by plate number; a later one overrides.
    pub plate_json: Seq<(u32, Seq<char>)>,
    /// The last slice information text.
    pub slice_info: Option<Seq<char>>,
}

pub open spec fn empty_scan() -> ArchiveScan {
    ArchiveScan {
        settings: Seq::empty(),
        gcode: Seq::empty(),
        names: Seq::empty(),
        plate_json: Seq::empty(),
        slice_info: None,
    }
}

/// The text of an entry read as a string: its bytes, when they are UTF-8.
pub open spec fn entry_text(read: Option<Result<Seq<u8>, Seq<char>>>) -> Result<Seq<char>, ScanFailure> {
    match read {
        None => Err(ScanFailure::EntryFailed),
        Some(Err(m)) => Err(ScanFailure::ReadFailed(m)),
        Some(Ok(b)) => if valid_utf8(b) {
            Ok(decode_utf8(b))
        } else {
            Err(ScanFailure::NotText)
        },
    }
}

/// Takes in one entry, given what reading it gives: a filament configuration
/// is read as JSON and kept when it is an object naming presets, slice
/// information and plate metadata are kept as text, a plate's G-code is
/// noted by name, and no other entry is read.
pub open spec fn scan_step(
    s: ArchiveScan,
    name: Seq<char>,
    read: Option<Result<Seq<u8>, Seq<char>>>,
) -> Result<ArchiveScan, ScanFailure> {
    let s1 = ArchiveScan { names: s.names.push(name), ..s };
    match entry_kind_spec(name) {
        EntryKind::FilamentConfig => match entry_text(read) {
            Err(f) => Err(f),
            Ok(text) => match json_document_of(text) {
                None => Err(ScanFailure::NotJson),
                Some(None) => Ok(s1),
                Some(Some(fields)) => if has_field(fields, "filament_settings_id"@) {
                    Ok(ArchiveScan { settings: s1.settings.push(fields), ..s1 })
                } else {
                    Ok(s1)
                },
            },
        },
        EntryKind::SliceInfo => match entry_text(read) {
            Err(f) => Err(f),
            Ok(text) => Ok(ArchiveScan { slice_info: Some(text), ..s1 }),
        },
        EntryKind::PlateJson(i) => match entry_text(read) {
            Err(f) => Err(f),
            Ok(text) => Ok(ArchiveScan { plate_json: s1.plate_json.push((i, text)), ..s1 }),
        },
        EntryKind::PlateGcode(i) => Ok(ArchiveScan { gcode: s1.gcode.push((i, name)), ..s1 }),
        EntryKind::Other => Ok(s1),
    }
}

/// The first pass over the first `names.len()` entries of `archive`, in the
/// archive's order; the first entry that cannot be read ends it.
pub open spec fn scan_spec(archive: Seq<u8>, names: Seq<Seq<char>>) -> Result<ArchiveScan, ScanFailure>
    decreases names.len(),
{
    if names.len() == 0 {
        Ok(empty_scan())
    } else {
        match scan_spec(archive, names.drop_last()) {
            Ok(s) => scan_step(s, names.last(), zip_read_at_of(archive, (names.len() - 1) as nat)),
            Err(e) => Err(e),
        }
    }
}

struct Scan {
    settings: Vec<Vec<(String, JsonValue)>>,
    gcode: Vec<(u32, String)>,
    names: Vec<String>,
    plate_json: Vec<(u32, String)>,
    slice_info: Option<String>,
}

pub open spec fn pairs_view(v: Seq<(u32, String)>) -> Seq<(u32, Seq<char>)> {
    v.map_values(|e: (u32, String)| (e.0, e.1@))
}

spec fn scan_view(s: Scan) -> ArchiveScan {
    ArchiveScan {
        settings: s.settings@.map_values(|f: Vec<(String, JsonValue)>| fields_view(f@)),
        gcode: pairs_view(s.gcode@),
        names: string_seq_view(s.names@),
        plate_json: pairs_view(s.plate_json@),
        slice_info: match s.slice_info {
            Some(t) => Some(t@),
            None => None,
        },
    }
}

fn has_field_exec(fields: &Vec<(String, JsonValue)>, key: &str) -> (r: bool)
    ensures
        r == has_field(fields_view(fields@), key@),
{
    let mut i: usize = 0;
    while i < fields.len()
        invariant
            i <= fields@.len(),
            forall|k: int| 0 <= k < i ==> fields_view(fields@)[k].0 != key@,
        decreases fields.len() - i,
    {
        if str_eq(fields[i].0.as_str(), key) {
            assert(fields_view(fields@)[i as int].0 == key@);
            return true;
        }
        i = i + 1;
    }
    false
}

proof fn lemma_scan_failure_stays(archive: Seq<u8>, names: Seq<Seq<char>>, j: int, n: int)
    requires
        0 <= j <= n <= names.len(),
        scan_spec(archive, names.take(j)) is Err,
    ensures
        scan_spec(archive, names.take(n)) == scan_spec(archive, names.take(j)),
    decreases n - j,
{
    if n > j {
        lemma_scan_failure_stays(archive, names, j, n - 1);
        assert(names.take(n).drop_last() =~= names.take(n - 1));
    }
}

/// Reads an entry as text, as reading it to a string does.
fn read_text_at(archive: &[u8], index: usize) -> (r: Result<String, AppError>)
    ensures
        match entry_text(zip_read_at_of(archive@, index as nat)) {
            Ok(t) => r matches Ok(x) && x@ == t,
            Err(f) => r matches Err(e) && scan_error(e, f),
        },
{
    match zip_read_at(archive, index) {
        None => Err(AppError::InvalidFile),
        Some(Err(message)) => Err(AppError::Io(message)),
        Some(Ok(bytes)) => match utf8_text(bytes.as_slice()) {
            Some(t) => Ok(t),
            None => Err(AppError::Io("stream did not contain valid UTF-8".to_owned())),
        },
    }
}

fn scan_entries(archive: &[u8], names: &Vec<String>) -> (r: Result<Scan, AppError>)
    ensures
        match scan_spec(archive@, string_seq_view(names@)) {
            Ok(s) => r matches Ok(x) && scan_view(x) == s,
            Err(f) => r matches Err(e) && scan_error(e, f),
        },
{
    let mut scan = Scan {
        settings: Vec::new(),
        gcode: Vec::new(),
        names: Vec::new(),
        plate_json: Vec::new(),
        slice_info: None,
    };
    let ghost nv = string_seq_view(names@);
    let mut k: usize = 0;
    assert(nv.take(0) =~= Seq::<Seq<char>>::empty());
    assert(scan_view(scan) =~= empty_scan());
    while k < names.len()
        invariant
            k <= names@.len(),
            nv == string_seq_view(names@),
            scan_spec(archive@, nv.take(k as int)) == Ok::<ArchiveScan, ScanFailure>(scan_view(scan)),
        decreases names.len() - k,
    {
        let ghost before = scan_view(scan);
        assert(nv.take(k + 1).drop_last() =~= nv.take(k as int));
        assert(nv.take(k + 1).last() == nv[k as int]);
        let name = &names[k];
        let ghost step = scan_step(before, name@, zip_read_at_of(archive@, k as nat));
        scan.names.push(name.clone());
        assert(string_seq_view(scan.names@) =~= before.names.push(name@));
        match entry_kind(name.as_str()) {
            EntryKind::FilamentConfig => {
                let text = match read_text_at(archive, k) {
                    Ok(t) => t,
                    Err(e) => {
                        proof {
                            lemma_scan_failure_stays(archive@, nv, k + 1, nv.len() as int);
                            assert(nv.take(nv.len() as int) =~= nv);
                        }
                        return Err(e);
                    },
                };
                match json_document(text.as_str()) {
                    None => {
                        proof {
                            lemma_scan_failure_stays(archive@, nv, k + 1, nv.len() as int);
                            assert(nv.take(nv.len() as int) =~= nv);
                        }
                        return Err(AppError::InvalidFile);
                    },
                    Some(None) => {},
                    Some(Some(fields)) => {
                        if has_field_exec(&fields, "filament_settings_id") {
                            scan.settings.push(fields);
                            assert(scan_view(scan).settings =~= before.settings.push(
                                fields_view(fields@),
                            ));
                        }
                    },
                }
            },
            EntryKind::SliceInfo => {
                let text = match read_text_at(archive, k) {
                    Ok(t) => t,
                    Err(e) => {
                        proof {
                            lemma_scan_failure_stays(archive@, nv, k + 1, nv.len() as int);
                            assert(nv.take(nv.len() as int) =~= nv);
                        }
                        return Err(e);
                    },
                };
                scan.slice_info = Some(text);
            },
            EntryKind::PlateJson(i) => {
                let text = match read_text_at(archive, k) {
                    Ok(t) => t,
                    Err(e) => {
                        proof {
                            lemma_scan_failure_stays(archive@, nv, k + 1, nv.len() as int);
                            assert(nv.take(nv.len() as int) =~= nv);
                        }
                        return Err(e);
                    },
                };
                let ghost t = text@;
                scan.plate_json.push((i, text));
                assert(pairs_view(scan.plate_json@) =~= before.plate_json.push((i, t)));
            },
            EntryKind::PlateGcode(i) => {
                scan.gcode.push((i, name.clone()));
                assert(pairs_view(scan.gcode@) =~= before.gcode.push((i, name@)));
            },
            EntryKind::Other => {},
        }
        assert(scan_view(scan) =~= step->Ok_0);
        k = k + 1;
    }
    assert(nv.take(nv.len() as int) =~= nv);
    Ok(scan)
}

/// The first member named `key`.
pub open spec fn field_of(fields: Seq<(Seq<char>, JsonShape)>, key: Seq<char>) -> Option<JsonShape>
    decreases fields.len(),
{
    if fields.len() == 0 {
        None
    } else if fields[0].0 == key {
        Some(fields[0].1)
    } else {
        field_of(fields.drop_first(), key)
    }
}

/// The member `key` when it is an array that is not empty.
pub open spec fn values_of(fields: Seq<(Seq<char>, JsonShape)>, key: Seq<char>) -> Option<
    Seq<(bool, Seq<char>)>,
> {
    match field_of(fields, key) {
        Some(JsonShape::List(items)) => if items.len() > 0 {
            Some(items)
        } else {
            None
        },
        _ => None,
    }
}

/// Element `i` of the array `key`, when it is a string that is not blank.
pub open spec fn string_at(fields: Seq<(Seq<char>, JsonShape)>, key: Seq<char>, i: int) -> Option<
    Seq<char>,
> {
    match values_of(fields, key) {
        Some(items) => if 0 <= i < items.len() && items[i].0 && trim_seq(items[i].1).len() > 0 {
            Some(items[i].1)
        } else {
            None
        },
        None => None,
    }
}

/// The members that describe a filament and are read into its profile.
pub open spec fn known_key(key: Seq<char>) -> bool {
    key == "filament_settings_id"@ || key == "filament_type"@ || key == "filament_colour"@ || key
        == "filament_diameter"@ || key == "filament_density"@
}

pub open spec fn item_shape(item: (bool, Seq<char>)) -> JsonShape {
    if item.0 {
        JsonShape::Text(item.1)
    } else {
        JsonShape::Other(item.1)
    }
}

/// What a member says of filament `i`: its element `i` when it is an array
/// that long, else the whole member.
pub open spec fn member_for(value: JsonShape, i: int) -> JsonShape {
    match value {
        JsonShape::List(items) => if 0 <= i < items.len() {
            item_shape(items[i])
        } else {
            value
        },
        _ => value,
    }
}

/// The other members, as they concern filament `i`, in key order.
pub open spec fn unknown_for(fields: Seq<(Seq<char>, JsonShape)>, i: int) -> Seq<(Seq<char>, JsonShape)>
    decreases fields.len(),
{
    if fields.len() == 0 {
        Seq::empty()
    } else {
        let rest = unknown_for(fields.drop_last(), i);
        let last = fields.last();
        if known_key(last.0) {
            rest
        } else {
            rest.push((last.0, member_for(last.1, i)))
        }
    }
}

/// A filament of the archive; diameter and density are still text.
#[verifier::ext_equal]
pub struct FilamentText {
    pub tool: int,
    pub preset_id: Seq<char>,
    pub brand: Seq<char>,
    pub material: Seq<char>,
    pub series: Seq<char>,
    pub color_hex: Seq<char>,
    pub diameter: Seq<char>,
    pub density: Seq<char>,
    pub unknown_fields: Seq<(Seq<char>, JsonShape)>,
}

/// The profile of filament `i` of a configuration.
pub open spec fn profile_at(fields: Seq<(Seq<char>, JsonShape)>, i: int) -> FilamentText {
    let preset_id = string_at(fields, "filament_settings_id"@, i)->Some_0;
    let material = string_at(fields, "filament_type"@, i)->Some_0;
    FilamentText {
        tool: i,
        preset_id,
        brand: normalize_preset_spec(preset_id, material).0,
        material,
        series: normalize_preset_spec(preset_id, material).1,
        color_hex: string_at(fields, "filament_colour"@, i)->Some_0,
        diameter: string_at(fields, "filament_diameter"@, i)->Some_0,
        density: string_at(fields, "filament_density"@, i)->Some_0,
        unknown_fields: unknown_for(fields, i),
    }
}

/// Filament `i` names a preset, material, colour, diameter and density.
pub open spec fn profile_complete(fields: Seq<(Seq<char>, JsonShape)>, i: int) -> bool {
    &&& string_at(fields, "filament_settings_id"@, i) is Some
    &&& string_at(fields, "filament_type"@, i) is Some
    &&& string_at(fields, "filament_colour"@, i) is Some
    &&& string_at(fields, "filament_diameter"@, i) is Some
    &&& string_at(fields, "filament_density"@, i) is Some
}

/// The filaments of one configuration, one for each preset it names (at most
/// 256, numbered from tool 0); `None` when one of them is incomplete.
pub open spec fn config_profiles(fields: Seq<(Seq<char>, JsonShape)>) -> Option<Seq<FilamentText>> {
    match values_of(fields, "filament_settings_id"@) {
        None => None,
        Some(ids) => if ids.len() <= 256 && forall|i: int|
            0 <= i < ids.len() ==> #[trigger] profile_complete(fields, i) {
            Some(Seq::new(ids.len(), |i: int| profile_at(fields, i)))
        } else {
            None
        },
    }
}

/// The filaments of all configurations, in order.
pub open spec fn all_profiles(settings: Seq<Seq<(Seq<char>, JsonShape)>>) -> Option<Seq<FilamentText>>
    decreases settings.len(),
{
    if settings.len() == 0 {
        Some(Seq::empty())
    } else {
        match (all_profiles(settings.drop_last()), config_profiles(settings.last())) {
            (Some(a), Some(b)) => Some(a + b),
            _ => None,
        }
    }
}

/// A filament of the archive, with its diameter and density as text.
#[derive(Debug, Clone)]
pub struct FilamentEntry {
    pub tool: u8,
    pub preset_id: String,
    pub brand: String,
    pub material: String,
    pub series: String,
    pub color_hex: String,
    pub diameter: String,
    pub density: String,
    pub unknown_fields: Vec<(String, JsonValue)>,
}

pub open spec fn filament_view(f: FilamentEntry) -> FilamentText {
    FilamentText {
        tool: f.tool as int,
        preset_id: f.preset_id@,
        brand: f.brand@,
        material: f.material@,
        series: f.series@,
        color_hex: f.color_hex@,
        diameter: f.diameter@,
        density: f.density@,
        unknown_fields: fields_view(f.unknown_fields@),
    }
}

pub open spec fn filaments_view(v: Seq<FilamentEntry>) -> Seq<FilamentText> {
    v.map_values(|f: FilamentEntry| filament_view(f))
}

pub(crate) fn field_exec<'a>(fields: &'a Vec<(String, JsonValue)>, key: &str) -> (r: Option<&'a JsonValue>)
    ensures
        match r {
            Some(v) => field_of(fields_view(fields@), key@) == Some(value_view(*v)),
            None => field_of(fields_view(fields@), key@) is None,
        },
{
    let mut i: usize = 0;
    assert(fields_view(fields@).skip(0) =~= fields_view(fields@));
    while i < fields.len()
        invariant
            i <= fields@.len(),
            field_of(fields_view(fields@), key@) == field_of(
                fields_view(fields@).skip(i as int),
                key@,
            ),
        decreases fields.len() - i,
    {
        let ghost rest = fields_view(fields@).skip(i as int);
        assert(rest.drop_first() =~= fields_view(fields@).skip(i + 1));
        if str_eq(fields[i].0.as_str(), key) {
            return Some(&fields[i].1);
        }
        i = i + 1;
    }
    None
}

fn string_at_exec(fields: &Vec<(String, JsonValue)>, key: &str, i: usize) -> (r: Option<String>)
    ensures
        match r {
            Some(s) => string_at(fields_view(fields@), key@, i as int) == Some(s@),
            None => string_at(fields_view(fields@), key@, i as int) is None,
        },
{
    match field_exec(fields, key) {
        Some(JsonValue::List(items)) => {
            let ghost iv = items@.map_values(|x: JsonItem| item_view(x));
            if items.len() > 0 && i < items.len() {
                match &items[i] {
                    JsonItem::Text(s) => {
                        assert(iv[i as int] == (true, s@));
                        if chars_of(trim(s.as_str())).len() > 0 {
                            Some(s.clone())
                        } else {
                            None
                        }
                    },
                    JsonItem::Other(_) => None,
                }
            } else {
                None
            }
        },
        _ => None,
    }
}

fn known_key_exec(key: &str) -> (r: bool)
    ensures
        r == known_key(key@),
{
    str_eq(key, "filament_settings_id") || str_eq(key, "filament_type") || str_eq(
        key,
        "filament_colour",
    ) || str_eq(key, "filament_diameter") || str_eq(key, "filament_density")
}

fn copy_items(items: &Vec<JsonItem>) -> (r: Vec<JsonItem>)
    ensures
        r@.map_values(|x: JsonItem| item_view(x)) == items@.map_values(|x: JsonItem| item_view(x)),
{
    let mut out: Vec<JsonItem> = Vec::new();
    let mut k: usize = 0;
    while k < items.len()
        invariant
            k <= items@.len(),
            out@.len() == k,
            forall|j: int| 0 <= j < k ==> item_view(#[trigger] out@[j]) == item_view(items@[j]),
        decreases items.len() - k,
    {
        let item = match &items[k] {
            JsonItem::Text(s) => JsonItem::Text(s.clone()),
            JsonItem::Other(t) => JsonItem::Other(t.clone()),
        };
        out.push(item);
        k = k + 1;
    }
    assert(out@.map_values(|x: JsonItem| item_view(x)) =~= items@.map_values(
        |x: JsonItem| item_view(x),
    ));
    out
}

fn member_for_exec(value: &JsonValue, i: usize) -> (r: JsonValue)
    ensures
        value_view(r) == member_for(value_view(*value), i as int),
{
    match value {
        JsonValue::List(items) => {
            if i < items.len() {
                match &items[i] {
                    JsonItem::Text(s) => JsonValue::Text(s.clone()),
                    JsonItem::Other(t) => JsonValue::Other(t.clone()),
                }
            } else {
                let copy = JsonValue::List(copy_items(items));
                assert(value_view(copy) =~= value_view(*value));
                copy
            }
        },
        JsonValue::Text(s) => JsonValue::Text(s.clone()),
        JsonValue::Other(t) => JsonValue::Other(t.clone()),
    }
}

fn unknown_exec(fields: &Vec<(String, JsonValue)>, i: usize) -> (r: Vec<(String, JsonValue)>)
    ensures
        fields_view(r@) == unknown_for(fields_view(fields@), i as int),
{
    let mut out: Vec<(String, JsonValue)> = Vec::new();
    let mut k: usize = 0;
    assert(fields_view(fields@).take(0) =~= Seq::<(Seq<char>, JsonShape)>::empty());
    while k < fields.len()
        invariant
            k <= fields@.len(),
            fields_view(out@) == unknown_for(fields_view(fields@).take(k as int), i as int),
        decreases fields.len() - k,
    {
        let ghost fv = fields_view(fields@);
        assert(fv.take(k + 1).drop_last() =~= fv.take(k as int));
        assert(fv.take(k + 1).last() == fv[k as int]);
        if !known_key_exec(fields[k].0.as_str()) {
            let ghost before = out@;
            let v = member_for_exec(&fields[k].1, i);
            out.push((fields[k].0.clone(), v));
            assert(fields_view(out@) =~= fields_view(before).push((fv[k as int].0, value_view(v))));
        }
        k = k + 1;
    }
    assert(fields_view(fields@).take(fields@.len() as int) =~= fields_view(fields@));
    out
}

fn config_profiles_exec(fields: &Vec<(String, JsonValue)>) -> (r: Option<Vec<FilamentEntry>>)
    ensures
        match config_profiles(fields_view(fields@)) {
            Some(ps) => r matches Some(v) && filaments_view(v@) == ps,
            None => r is None,
        },
{
    let ghost fv = fields_view(fields@);
    let count = match field_exec(fields, "filament_settings_id") {
        Some(JsonValue::List(items)) => items.len(),
        _ => 0,
    };
    if count == 0 || count > 256 {
        return None;
    }
    let mut out: Vec<FilamentEntry> = Vec::new();
    let mut i: usize = 0;
    while i < count
        invariant
            i <= count <= 256,
            values_of(fv, "filament_settings_id"@) matches Some(ids) && ids.len() == count,
            fv == fields_view(fields@),
            out@.len() == i,
            forall|j: int| 0 <= j < i ==> #[trigger] profile_complete(fv, j),
            forall|j: int| 0 <= j < i ==> filament_view(#[trigger] out@[j]) == profile_at(fv, j),
        decreases count - i,
    {
        let preset_id = string_at_exec(fields, "filament_settings_id", i);
        let material = string_at_exec(fields, "filament_type", i);
        let color_hex = string_at_exec(fields, "filament_colour", i);
        let diameter = string_at_exec(fields, "filament_diameter", i);
        let density = string_at_exec(fields, "filament_density", i);
        if preset_id.is_none() || material.is_none() || color_hex.is_none() || diameter.is_none()
            || density.is_none() {
            assert(!profile_complete(fv, i as int));
            return None;
        }
        let preset_id = preset_id.unwrap();
        let material = material.unwrap();
        let color_hex = color_hex.unwrap();
        let diameter = diameter.unwrap();
        let density = density.unwrap();
        let (brand, series) = normalize_preset(preset_id.as_str(), material.as_str());
        let entry = FilamentEntry {
            tool: i as u8,
            preset_id,
            brand,
            material,
            series,
            color_hex,
            diameter,
            density,
            unknown_fields: unknown_exec(fields, i),
        };
        assert(filament_view(entry) =~= profile_at(fv, i as int));
        out.push(entry);
        i = i + 1;
    }
    assert(filaments_view(out@) =~= Seq::new(count as nat, |i: int| profile_at(fv, i)));
    Some(out)
}

fn all_profiles_exec(settings: &Vec<Vec<(String, JsonValue)>>) -> (r: Option<Vec<FilamentEntry>>)
    ensures
        match all_profiles(settings@.map_values(|f: Vec<(String, JsonValue)>| fields_view(f@))) {
            Some(ps) => r matches Some(v) && filaments_view(v@) == ps,
            None => r is None,
        },
{
    let ghost sv = settings@.map_values(|f: Vec<(String, JsonValue)>| fields_view(f@));
    let mut out: Vec<FilamentEntry> = Vec::new();
    let mut k: usize = 0;
    assert(sv.take(0) =~= Seq::<Seq<(Seq<char>, JsonShape)>>::empty());
    while k < settings.len()
        invariant
            k <= settings@.len(),
            sv == settings@.map_values(|f: Vec<(String, JsonValue)>| fields_view(f@)),
            all_profiles(sv.take(k as int)) == Some(filaments_view(out@)),
        decreases settings.len() - k,
    {
        assert(sv.take(k + 1).drop_last() =~= sv.take(k as int));
        assert(sv.take(k + 1).last() == fields_view(settings@[k as int]@));
        match config_profiles_exec(&settings[k]) {
            Some(more) => {
                let ghost before = out@;
                let ghost added = more@;
                let mut more = more;
                out.append(&mut more);
                assert(filaments_view(out@) =~= filaments_view(before) + filaments_view(
                    added,
                ));
            },
            None => {
                proof {
                    lemma_profiles_failure_stays(sv, k + 1, sv.len() as int);
                    assert(sv.take(sv.len() as int) =~= sv);
                }
                return None;
            },
        }
        k = k + 1;
    }
    assert(sv.take(sv.len() as int) =~= sv);
    Some(out)
}

proof fn lemma_profiles_failure_stays(settings: Seq<Seq<(Seq<char>, JsonShape)>>, j: int, n: int)
    requires
        0 <= j <= n <= settings.len(),
        all_profiles(settings.take(j)) is None,
    ensures
        all_profiles(settings.take(n)) is None,
    decreases n - j,
{
    if n > j {
        lemma_profiles_failure_stays(settings, j, n - 1);
        assert(settings.take(n).drop_last() =~= settings.take(n - 1));
    }
}

pub open spec fn name_keys() -> Seq<Seq<char>> {
    seq!["name"@, "display_name"@, "plate_name"@]
}

/// The first of `keys` whose member is a string.
pub open spec fn first_text(fields: Seq<(Seq<char>, JsonShape)>, keys: Seq<Seq<char>>) -> Option<
    Seq<char>,
>
    decreases keys.len(),
{
    if keys.len() == 0 {
        None
    } else {
        match field_of(fields, keys[0]) {
            Some(JsonShape::Text(s)) => Some(s),
            _ => first_text(fields, keys.drop_first()),
        }
    }
}

/// The display name a plate's metadata gives: the first of `name`,
/// `display_name` and `plate_name` that is a string, trimmed, unless blank.
/// `None` when the metadata is no JSON.
pub open spec fn display_name_spec(text: Seq<char>) -> Option<Option<Seq<char>>> {
    match json_document_of(text) {
        None => None,
        Some(None) => Some(None),
        Some(Some(fields)) => match first_text(fields, name_keys()) {
            Some(s) => if trim_seq(s).len() > 0 {
                Some(Some(trim_seq(s)))
            } else {
                Some(None)
            },
            None => Some(None),
        },
    }
}

/// The last metadata text kept for plate `index`.
pub open spec fn json_for(texts: Seq<(u32, Seq<char>)>, index: u32) -> Option<Seq<char>>
    decreases texts.len(),
{
    if texts.len() == 0 {
        None
    } else if texts.last().0 == index {
        Some(texts.last().1)
    } else {
        json_for(texts.drop_last(), index)
    }
}

/// What reading a plate's G-code entry by name gives: `None` when the
/// archive has no such entry or cannot be opened, else the bytes or the
/// text of the read error.
pub open spec fn gcode_read(archive: Seq<u8>, name: Seq<char>) -> Option<Result<Seq<u8>, Seq<char>>> {
    match zip_entry_read(archive, name, u64::MAX) {
        Some(Some(e)) => Some(e.5),
        _ => None,
    }
}

/// Why a plate cannot be read.
pub enum PlateFailure {
    /// Its G-code entry cannot be found.
    Missing,
    /// Reading its G-code failed, with this error text.
    ReadFailed(Seq<char>),
    /// Its metadata is no JSON.
    BadMetadata,
}

pub open spec fn plate_error(e: AppError, f: PlateFailure) -> bool {
    match f {
        PlateFailure::ReadFailed(m) => e matches AppError::Io(t) && t@ == m,
        _ => e == AppError::InvalidFile,
    }
}

/// Why the plate of G-code entry `g` cannot be read, if it cannot: its
/// G-code is read first, then its metadata.
pub open spec fn plate_failure(archive: Seq<u8>, s: ArchiveScan, g: (u32, Seq<char>)) -> Option<PlateFailure> {
    match gcode_read(archive, g.1) {
        None => Some(PlateFailure::Missing),
        Some(Err(m)) => Some(PlateFailure::ReadFailed(m)),
        Some(Ok(_)) => match json_for(s.plate_json, g.0) {
            Some(t) => if display_name_spec(t) is None {
                Some(PlateFailure::BadMetadata)
            } else {
                None
            },
            None => None,
        },
    }
}

/// `g` is the G-code entry of the lowest-numbered plate that cannot be read.
pub open spec fn first_failing_plate(archive: Seq<u8>, s: ArchiveScan, j: int) -> bool {
    &&& 0 <= j < s.gcode.len()
    &&& plate_failure(archive, s, s.gcode[j]) is Some
    &&& forall|m: int|
        0 <= m < s.gcode.len() && (#[trigger] s.gcode[m]).0 < s.gcode[j].0 ==> plate_failure(
            archive,
            s,
            s.gcode[m],
        ) is None
}

pub open spec fn display_of(s: ArchiveScan, index: u32) -> Option<Seq<char>> {
    match json_for(s.plate_json, index) {
        Some(t) => display_name_spec(t)->Some_0,
        None => None,
    }
}

pub open spec fn predictions_of(s: ArchiveScan) -> Seq<(u32, u32)> {
    match s.slice_info {
        Some(t) => slice_predictions_spec(t),
        None => Seq::empty(),
    }
}

pub open spec fn gcode_indices(g: Seq<(u32, Seq<char>)>) -> Seq<u32> {
    g.map_values(|e: (u32, Seq<char>)| e.0)
}

/// A plate of the archive, with its G-code still as bytes.
#[derive(Debug, Clone)]
pub struct ArchivePlate {
    pub plate_index: u32,
    pub gcode_name: String,
    pub display_name: Option<String>,
    pub thumbnail_entries: Vec<String>,
    pub gcode: Vec<u8>,
}

/// What a sliced project archive holds, before its G-code is scanned.
#[derive(Debug, Clone)]
pub struct ProjectArchive {
    pub filaments: Vec<FilamentEntry>,
    pub predictions: Vec<(u32, u32)>,
    pub plates: Vec<ArchivePlate>,
}

pub open spec fn opt_string(o: Option<String>) -> Option<Seq<char>> {
    match o {
        Some(s) => Some(s@),
        None => None,
    }
}

/// `p` is the plate `p.gcode_name` of the archive.
pub open spec fn plate_matches(archive: Seq<u8>, s: ArchiveScan, p: ArchivePlate) -> bool {
    &&& s.gcode.contains((p.plate_index, p.gcode_name@))
    &&& gcode_read(archive, p.gcode_name@) == Some(Ok::<Seq<u8>, Seq<char>>(p.gcode@))
    &&& opt_string(p.display_name) == display_of(s, p.plate_index)
    &&& string_seq_view(p.thumbnail_entries@) == present_in(
        thumbnail_candidates(p.plate_index, s.gcode.len() == 1),
        s.names,
    )
}

pub open spec fn plate_indices(plates: Seq<ArchivePlate>) -> Seq<u32> {
    plates.map_values(|p: ArchivePlate| p.plate_index)
}

/// What reading an archive gives: an archive `zip` cannot read, an entry
/// that cannot be read, no plate, two G-code entries for one plate, no
/// complete filament, or a plate whose G-code or metadata cannot be read
/// (the lowest-numbered one decides the error), is refused; otherwise the
/// filaments of all configurations, the slicer's predictions and one plate
/// for each G-code entry, in plate order.
pub open spec fn archive_outcome(archive: Seq<u8>, r: Result<ProjectArchive, AppError>) -> bool {
    match zip_names_of(archive) {
        None => r == Err::<ProjectArchive, AppError>(AppError::InvalidFile),
        Some(names) => match scan_spec(archive, names) {
            Err(f) => r matches Err(e) && scan_error(e, f),
            Ok(s) => if s.gcode.len() == 0 {
                r == Err::<ProjectArchive, AppError>(AppError::UnslicedProject)
            } else if has_duplicate(gcode_indices(s.gcode)) {
                r == Err::<ProjectArchive, AppError>(AppError::InvalidFile)
            } else {
                match all_profiles(s.settings) {
                    None => r == Err::<ProjectArchive, AppError>(AppError::InvalidFile),
                    Some(fs) => if fs.len() == 0 {
                        r == Err::<ProjectArchive, AppError>(AppError::InvalidFile)
                    } else if exists|j: int|
                        0 <= j < s.gcode.len() && plate_failure(archive, s, #[trigger] s.gcode[j])
                            is Some {
                        exists|j: int|
                            #![trigger s.gcode[j]]
                            first_failing_plate(archive, s, j) && (r matches Err(e) && plate_error(
                                e,
                                plate_failure(archive, s, s.gcode[j])->Some_0,
                            ))
                    } else {
                        r matches Ok(p) && {
                            &&& filaments_view(p.filaments@) == fs
                            &&& p.predictions@ == predictions_of(s)
                            &&& p.plates@.len() == s.gcode.len()
                            &&& strictly_increasing(plate_indices(p.plates@))
                            &&& forall|k: int|
                                0 <= k < p.plates@.len() ==> plate_matches(
                                    archive,
                                    s,
                                    #[trigger] p.plates@[k],
                                )
                        }
                    },
                }
            },
        },
    }
}

fn display_name_exec(text: &str) -> (r: Option<Option<String>>)
    ensures
        match display_name_spec(text@) {
            None => r is None,
            Some(d) => r matches Some(x) && opt_string(x) == d,
        },
{
    let fields = match json_document(text) {
        None => return None,
        Some(None) => return Some(None),
        Some(Some(f)) => f,
    };
    let ghost fv = fields_view(fields@);
    proof {
        reveal_with_fuel(first_text, 4);
        assert(name_keys().drop_first() =~= seq!["display_name"@, "plate_name"@]);
        assert(name_keys().drop_first().drop_first() =~= seq!["plate_name"@]);
        assert(name_keys().drop_first().drop_first().drop_first() =~= Seq::<Seq<char>>::empty());
    }
    let found = match field_exec(&fields, "name") {
        Some(JsonValue::Text(s)) => Some(s),
        _ => match field_exec(&fields, "display_name") {
            Some(JsonValue::Text(s)) => Some(s),
            _ => match field_exec(&fields, "plate_name") {
                Some(JsonValue::Text(s)) => Some(s),
                _ => None,
            },
        },
    };
    match found {
        Some(s) => {
            let t = trim(s.as_str());
            if chars_of(t).len() > 0 {
                Some(Some(t.to_owned()))
            } else {
                Some(None)
            }
        },
        None => Some(None),
    }
}

fn json_for_exec(texts: &Vec<(u32, String)>, index: u32) -> (r: Option<&String>)
    ensures
        match r {
            Some(t) => json_for(pairs_view(texts@), index) == Some(t@),
            None => json_for(pairs_view(texts@), index) is None,
        },
{
    let ghost tv = pairs_view(texts@);
    let mut found: Option<&String> = None;
    let mut k: usize = 0;
    assert(tv.take(0) =~= Seq::<(u32, Seq<char>)>::empty());
    while k < texts.len()
        invariant
            k <= texts@.len(),
            tv == pairs_view(texts@),
            match found {
                Some(t) => json_for(tv.take(k as int), index) == Some(t@),
                None => json_for(tv.take(k as int), index) is None,
            },
        decreases texts.len() - k,
    {
        assert(tv.take(k + 1).drop_last() =~= tv.take(k as int));
        assert(tv.take(k + 1).last() == tv[k as int]);
        if texts[k].0 == index {
            found = Some(&texts[k].1);
        }
        k = k + 1;
    }
    assert(tv.take(tv.len() as int) =~= tv);
    found
}

fn gcode_read_exec(archive: &[u8], name: &str) -> (r: Option<Result<Vec<u8>, String>>)
    ensures
        read_view(r) == gcode_read(archive@, name@),
{
    match zip_entry(archive, name, u64::MAX) {
        Some(Some((_, contents))) => Some(contents),
        _ => None,
    }
}

proof fn lemma_same_members(a: Seq<(u32, String)>, b: Seq<(u32, String)>)
    requires
        a.to_multiset() == b.to_multiset(),
    ensures
        a.len() == b.len(),
        forall|x: (u32, String)| a.contains(x) <==> b.contains(x),
{
    a.to_multiset_ensures();
    b.to_multiset_ensures();
    assert forall|x: (u32, String)| a.contains(x) <==> b.contains(x) by {
        a.to_multiset_ensures();
        b.to_multiset_ensures();
        assert(a.contains(x) <==> a.to_multiset().count(x) > 0);
        assert(b.contains(x) <==> b.to_multiset().count(x) > 0);
    }
}

/// Reads a sliced project archive: its filaments, the slicer's predictions
/// and its plates in plate order, each with its name, thumbnails and G-code.
pub fn read_project_archive(archive: &[u8]) -> (r: Result<ProjectArchive, AppError>)
    ensures
        archive_outcome(archive@, r),
{
    let entry_names = match zip_names(archive) {
        Some(n) => n,
        None => return Err(AppError::InvalidFile),
    };
    let scan = match scan_entries(archive, &entry_names) {
        Ok(s) => s,
        Err(e) => return Err(e),
    };
    let ghost sv = scan_view(scan);
    let Scan { settings, gcode, names, plate_json, slice_info } = scan;
    let ghost given = gcode@;
    proof {
        assert(indices_of(given) =~= gcode_indices(sv.gcode));
    }
    let ordered = match order_plate_entries(gcode) {
        Ok(o) => o,
        Err(e) => return Err(e),
    };
    proof {
        lemma_same_members(ordered@, given);
    }
    let filaments = match all_profiles_exec(&settings) {
        Some(f) => f,
        None => return Err(AppError::InvalidFile),
    };
    if filaments.len() == 0 {
        return Err(AppError::InvalidFile);
    }
    let predictions = match &slice_info {
        Some(t) => slice_predictions(t.as_str()),
        None => Vec::new(),
    };
    let single = ordered.len() == 1;
    let mut plates: Vec<ArchivePlate> = Vec::new();
    let mut k: usize = 0;
    while k < ordered.len()
        invariant
            k <= ordered@.len(),
            plates@.len() == k,
            zip_names_of(archive@) == Some(string_seq_view(entry_names@)),
            scan_spec(archive@, string_seq_view(entry_names@)) == Ok::<ArchiveScan, ScanFailure>(sv),
            given.len() > 0,
            !has_duplicate(gcode_indices(sv.gcode)),
            all_profiles(sv.settings) == Some(filaments_view(filaments@)),
            filaments@.len() > 0,
            predictions@ == predictions_of(sv),
            strictly_increasing(indices_of(ordered@)),
            sv.names == string_seq_view(names@),
            sv.plate_json == pairs_view(plate_json@),
            sv.gcode == pairs_view(given),
            ordered@.len() == given.len(),
            single == (given.len() == 1),
            forall|x: (u32, String)| ordered@.contains(x) <==> given.contains(x),
            forall|j: int|
                0 <= j < k ==> {
                    &&& (#[trigger] plates@[j]).plate_index == ordered@[j].0
                    &&& plate_matches(archive@, sv, plates@[j])
                },
            forall|j: int|
                0 <= j < k ==> plate_failure(archive@, sv, (#[trigger] ordered@[j].0, ordered@[j].1@))
                    is None,
        decreases ordered.len() - k,
    {
        let idx = ordered[k].0;
        let name = &ordered[k].1;
        let ghost at: int;
        proof {
            assert(ordered@.contains(ordered@[k as int]));
            assert(given.contains(ordered@[k as int]));
            at = choose|j: int| 0 <= j < given.len() && given[j] == ordered@[k as int];
            assert(sv.gcode[at] == (idx, name@));
            assert forall|m: int|
                0 <= m < sv.gcode.len() && (#[trigger] sv.gcode[m]).0 < sv.gcode[at].0 implies plate_failure(
                archive@,
                sv,
                sv.gcode[m],
            ) is None by {
                assert(given.contains(given[m]));
                assert(ordered@.contains(given[m]));
                let q = choose|q: int| 0 <= q < ordered@.len() && ordered@[q] == given[m];
                assert(indices_of(ordered@)[q] == ordered@[q].0);
                assert(indices_of(ordered@)[k as int] == ordered@[k as int].0);
                if q >= k {
                    if q > k {
                        assert(indices_of(ordered@)[k as int] < indices_of(ordered@)[q]);
                    }
                }
                assert(q < k);
                assert(plate_failure(archive@, sv, (ordered@[q].0, ordered@[q].1@)) is None);
            }
        }
        let gcode_bytes = match gcode_read_exec(archive, name.as_str()) {
            Some(Ok(b)) => b,
            Some(Err(message)) => {
                proof {
                    assert(first_failing_plate(archive@, sv, at));
                }
                return Err(AppError::Io(message));
            },
            None => {
                proof {
                    assert(first_failing_plate(archive@, sv, at));
                }
                return Err(AppError::InvalidFile);
            },
        };
        let display = match json_for_exec(&plate_json, idx) {
            Some(t) => match display_name_exec(t.as_str()) {
                Some(d) => d,
                None => {
                    proof {
                        assert(first_failing_plate(archive@, sv, at));
                    }
                    return Err(AppError::InvalidFile);
                },
            },
            None => None,
        };
        let thumbs = thumbnail_entries(idx, &names, single);
        let plate = ArchivePlate {
            plate_index: idx,
            gcode_name: name.clone(),
            display_name: display,
            thumbnail_entries: thumbs,
            gcode: gcode_bytes,
        };
        assert(sv.gcode.contains((idx, name@)));
        assert(plate_matches(archive@, sv, plate));
        plates.push(plate);
        k = k + 1;
    }
    proof {
        assert forall|j: int| 0 <= j < sv.gcode.len() implies plate_failure(
            archive@,
            sv,
            #[trigger] sv.gcode[j],
        ) is None by {
            assert(given.contains(given[j]));
            assert(ordered@.contains(given[j]));
            let m = choose|m: int| 0 <= m < ordered@.len() && ordered@[m] == given[j];
            assert(plate_failure(archive@, sv, (ordered@[m].0, ordered@[m].1@)) is None);
        }
        assert(plate_indices(plates@) =~= indices_of(ordered@));
    }
    Ok(ProjectArchive { filaments, predictions, plates })
}

} // verus!
