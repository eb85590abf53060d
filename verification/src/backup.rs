//! The rules a backup must meet before it replaces the database: the shape of
//! its header, unique identities, the four slots, safe settings, media rows
//! that point only into the media directory, and ledger events and jobs whose
//! links agree.
pub mod archive;
pub mod parsed;
pub mod restore;
pub mod snapshot;

use crate::error::AppError;
use crate::history::{json_kind, json_kind_text};
use crate::inventory::{confidence_spec, parse_confidence};
use crate::locale::{is_supported_locale, supported_locale};
use crate::media::{is_plain_relative_path, plain_relative_path};
use crate::text::{
    ascii_lower_seq, chars_of, find_chars, find_seq, lower_chars, slice_chars, str_eq,
};
use vstd::prelude::*;

verus! {

/// The version of the backups this library writes.
pub const BACKUP_SCHEMA_VERSION: u32 = 3;

/// The most bytes a media file in a backup may hold.
pub const MAX_BACKUP_MEDIA_BYTES: u64 = 16777216;

/// The settings a backup may carry.
pub open spec fn safe_setting_key(key: Seq<char>) -> bool {
    key == "theme"@ || key == "locale"@ || key == "notifications_enabled"@
}

pub open spec fn sensitive_words() -> Seq<Seq<char>> {
    seq!["token"@, "password"@, "secret"@, "credential"@]
}

/// A name that mentions a token, a password, a secret or a credential, in any ASCII case.
pub open spec fn contains_sensitive_spec(value: Seq<char>) -> bool {
    exists|i: int|
        0 <= i < sensitive_words().len() && (#[trigger] find_seq(
            ascii_lower_seq(value),
            sensitive_words()[i],
        )) is Some
}

/// Whether a name looks like it holds a secret; see `contains_sensitive_spec`.
pub fn contains_sensitive(value: &str) -> (r: bool)
    ensures
        r == contains_sensitive_spec(value@),
{
    let lower = lower_chars(value);
    let token = find_chars(&lower, &chars_of("token")).is_some();
    let password = find_chars(&lower, &chars_of("password")).is_some();
    let secret = find_chars(&lower, &chars_of("secret")).is_some();
    let credential = find_chars(&lower, &chars_of("credential")).is_some();
    proof {
        let w = sensitive_words();
        assert(w[0] == "token"@ && w[1] == "password"@ && w[2] == "secret"@ && w[3]
            == "credential"@);
        if token {
            assert(find_seq(ascii_lower_seq(value@), w[0]) is Some);
        }
        if password {
            assert(find_seq(ascii_lower_seq(value@), w[1]) is Some);
        }
        if secret {
            assert(find_seq(ascii_lower_seq(value@), w[2]) is Some);
        }
        if credential {
            assert(find_seq(ascii_lower_seq(value@), w[3]) is Some);
        }
    }
    token || password || secret || credential
}

pub open spec fn lower_hex_digit(c: char) -> bool {
    ('0' <= c <= '9') || ('a' <= c <= 'f')
}

/// A SHA-256 in lowercase hex: 64 characters from `0-9a-f`.
pub open spec fn valid_hash_spec(value: Seq<char>) -> bool {
    value.len() == 64 && forall|i: int| 0 <= i < value.len() ==> lower_hex_digit(#[trigger] value[i])
}

/// Whether a text is a lowercase hex SHA-256.
pub fn valid_hash(value: &str) -> (r: bool)
    ensures
        r == valid_hash_spec(value@),
{
    let v = chars_of(value);
    if v.len() != 64 {
        return false;
    }
    let mut i: usize = 0;
    while i < v.len()
        invariant
            i <= v@.len(),
            v@ == value@,
            forall|k: int| 0 <= k < i ==> lower_hex_digit(#[trigger] v@[k]),
        decreases v.len() - i,
    {
        let c = v[i];
        if !(('0' <= c && c <= '9') || ('a' <= c && c <= 'f')) {
            assert(!lower_hex_digit(v@[i as int]));
            return false;
        }
        i = i + 1;
    }
    true
}

/// Whether a text names a confidence.
pub fn valid_confidence(value: &str) -> (r: bool)
    ensures
        r == (confidence_spec(value@) is Some),
{
    parse_confidence(value).is_some()
}

/// A timestamp that is empty or holds a path separator is refused.
pub open spec fn unsafe_stamp_spec(value: Seq<char>) -> bool {
    value.len() == 0 || value.contains('/') || value.contains('\\')
}

fn has_char(v: &Vec<char>, c: char) -> (r: bool)
    ensures
        r == v@.contains(c),
{
    let mut i: usize = 0;
    while i < v.len()
        invariant
            i <= v@.len(),
            forall|k: int| 0 <= k < i ==> v@[k] != c,
        decreases v.len() - i,
    {
        if v[i] == c {
            assert(v@[i as int] == c);
            return true;
        }
        i = i + 1;
    }
    false
}

/// Whether a timestamp is unsafe; see `unsafe_stamp_spec`.
pub fn unsafe_stamp(value: &str) -> (r: bool)
    ensures
        r == unsafe_stamp_spec(value@),
{
    let v = chars_of(value);
    v.len() == 0 || has_char(&v, '/') || has_char(&v, '\\')
}

/// A setting whose value is not one its key allows; unknown keys are always unsafe.
pub open spec fn unsafe_setting_spec(key: Seq<char>, value: Seq<char>) -> bool {
    if key == "locale"@ {
        !supported_locale(value)
    } else if key == "theme"@ {
        !(value == "light"@ || value == "dark"@)
    } else if key == "notifications_enabled"@ {
        !(value == "true"@ || value == "false"@)
    } else {
        true
    }
}

/// Whether a setting holds a value its key does not allow.
pub fn unsafe_setting(key: &str, value: &str) -> (r: bool)
    ensures
        r == unsafe_setting_spec(key@, value@),
{
    if str_eq(key, "locale") {
        !is_supported_locale(value)
    } else if str_eq(key, "theme") {
        !(str_eq(value, "light") || str_eq(value, "dark"))
    } else if str_eq(key, "notifications_enabled") {
        !(str_eq(value, "true") || str_eq(value, "false"))
    } else {
        true
    }
}

/// A setting a backup may restore: a known key, no secret in its name, an allowed value.
pub open spec fn setting_allowed_spec(key: Seq<char>, value: Seq<char>) -> bool {
    safe_setting_key(key) && !contains_sensitive_spec(key) && !unsafe_setting_spec(key, value)
}

/// `Path::extension` of a path, as text. What it decides is std's.
pub uninterp spec fn path_extension(path: Seq<char>) -> Option<Seq<char>>;

/// Calls `Path::extension` and takes it as text. The contract names the result only.
#[verifier::external_body]
pub(crate) fn extension_of(path: &str) -> (r: Option<&str>)
    ensures
        r matches Some(e) ==> path_extension(path@) == Some(e@),
        r is None ==> path_extension(path@) is None,
{
    match std::path::Path::new(path).extension() {
        Some(extension) => extension.to_str(),
        None => None,
    }
}

pub open spec fn ascii_alphanumeric(c: char) -> bool {
    ('0' <= c <= '9') || ('a' <= c <= 'z') || ('A' <= c <= 'Z')
}

/// The extension of a media file, when it is non-empty and ASCII alphanumeric.
pub open spec fn media_extension_spec(relative_path: Seq<char>) -> Option<Seq<char>> {
    match path_extension(relative_path) {
        Some(e) => if e.len() > 0 && forall|i: int|
            0 <= i < e.len() ==> ascii_alphanumeric(#[trigger] e[i]) {
            Some(e)
        } else {
            None
        },
        None => None,
    }
}

/// The extension of a media file; see `media_extension_spec`.
pub fn media_extension(relative_path: &str) -> (r: Result<&str, AppError>)
    ensures
        r matches Ok(e) ==> media_extension_spec(relative_path@) == Some(e@),
        r is Err ==> media_extension_spec(relative_path@) is None,
        r matches Err(e) ==> e == AppError::InvalidFile,
{
    let extension = match extension_of(relative_path) {
        Some(e) => e,
        None => return Err(AppError::InvalidFile),
    };
    let v = chars_of(extension);
    if v.len() == 0 {
        return Err(AppError::InvalidFile);
    }
    let mut i: usize = 0;
    while i < v.len()
        invariant
            i <= v@.len(),
            v@ == extension@,
            path_extension(relative_path@) == Some(extension@),
            forall|k: int| 0 <= k < i ==> ascii_alphanumeric(#[trigger] v@[k]),
        decreases v.len() - i,
    {
        let c = v[i];
        if !(('0' <= c && c <= '9') || ('a' <= c && c <= 'z') || ('A' <= c && c <= 'Z')) {
            assert(!ascii_alphanumeric(v@[i as int]));
            return Err(AppError::InvalidFile);
        }
        i = i + 1;
    }
    Ok(extension)
}

/// The name of a media file inside a backup archive: `media/<id>.<extension>`.
pub fn media_archive_name(asset_id: &str, relative_path: &str) -> (r: Result<String, AppError>)
    ensures
        r matches Ok(name) ==> media_extension_spec(relative_path@) matches Some(e) && name@
            == "media/"@ + asset_id@ + "."@ + e,
        r is Err ==> media_extension_spec(relative_path@) is None,
{
    let extension = media_extension(relative_path)?;
    let mut name = String::new();
    name.append("media/");
    name.append(asset_id);
    name.append(".");
    name.append(extension);
    Ok(name)
}

/// A media row of a backup is sound: its id is a hash, its path is plain and
/// relative and is exactly where that id is stored, it names a type, it is
/// not too large, its timestamp is safe, and no dimension is zero.
pub open spec fn media_row_ok(
    asset_id: Seq<char>,
    relative_path: Seq<char>,
    mime_type: Seq<char>,
    byte_size: u64,
    created_at: Seq<char>,
    width: Option<u32>,
    height: Option<u32>,
) -> bool {
    &&& valid_hash_spec(asset_id)
    &&& plain_relative_path(relative_path)
    &&& media_extension_spec(relative_path) matches Some(e) && relative_path
        == crate::media::media_relative_path_spec(asset_id, e)
    &&& mime_type.len() > 0
    &&& byte_size <= MAX_BACKUP_MEDIA_BYTES
    &&& !unsafe_stamp_spec(created_at)
    &&& width != Some(0u32)
    &&& height != Some(0u32)
}

/// Checks a media row of a backup; see `media_row_ok`.
pub fn validate_media_row(
    asset_id: &str,
    relative_path: &str,
    mime_type: &str,
    byte_size: u64,
    created_at: &str,
    width: Option<u32>,
    height: Option<u32>,
) -> (r: Result<(), AppError>)
    ensures
        r is Ok <==> media_row_ok(
            asset_id@,
            relative_path@,
            mime_type@,
            byte_size,
            created_at@,
            width,
            height,
        ),
        r matches Err(e) ==> e == AppError::InvalidFile,
{
    if !valid_hash(asset_id) || !is_plain_relative_path(relative_path) {
        return Err(AppError::InvalidFile);
    }
    let extension = match media_extension(relative_path) {
        Ok(e) => e,
        Err(_) => return Err(AppError::InvalidFile),
    };
    let expected = crate::media::media_relative_path(asset_id, extension);
    if !str_eq(expected.as_str(), relative_path) || mime_type.unicode_len() == 0 || byte_size
        > MAX_BACKUP_MEDIA_BYTES || unsafe_stamp(created_at) || width == Some(0u32) || height
        == Some(0u32) {
        return Err(AppError::InvalidFile);
    }
    Ok(())
}

/// The header of a backup: a known version, media only from version 3 on, four slots.
pub open spec fn header_ok(schema_version: u32, media_files_included: bool, slot_count: nat) -> bool {
    &&& (schema_version == 1 || schema_version == 2 || schema_version == BACKUP_SCHEMA_VERSION)
    &&& !(schema_version < 3 && media_files_included)
    &&& slot_count == 4
}

/// Checks the header of a backup; see `header_ok`.
pub fn validate_header(schema_version: u32, media_files_included: bool, slot_count: usize) -> (r: Result<(), AppError>)
    ensures
        r is Ok <==> header_ok(schema_version, media_files_included, slot_count as nat),
        r matches Err(e) ==> e == AppError::InvalidFile,
{
    if !(schema_version == 1 || schema_version == 2 || schema_version == BACKUP_SCHEMA_VERSION)
        || (schema_version < 3 && media_files_included) || slot_count != 4 {
        return Err(AppError::InvalidFile);
    }
    Ok(())
}

pub open spec fn texts(v: Seq<String>) -> Seq<Seq<char>> {
    v.map_values(|s: String| s@)
}

pub open spec fn distinct_texts(s: Seq<Seq<char>>) -> bool {
    forall|i: int, j: int| 0 <= i < j < s.len() ==> s[i] != s[j]
}

/// Whether `v` holds the text `x`.
pub fn contains_text(v: &Vec<String>, x: &str) -> (r: bool)
    ensures
        r == texts(v@).contains(x@),
{
    let mut i: usize = 0;
    while i < v.len()
        invariant
            i <= v@.len(),
            forall|k: int| 0 <= k < i ==> v@[k]@ != x@,
        decreases v.len() - i,
    {
        if str_eq(v[i].as_str(), x) {
            assert(texts(v@)[i as int] == x@);
            return true;
        }
        i = i + 1;
    }
    proof {
        if texts(v@).contains(x@) {
            let k = choose|k: int| 0 <= k < texts(v@).len() && texts(v@)[k] == x@;
            assert(v@[k]@ == x@);
        }
    }
    false
}

/// Whether no text occurs twice.
pub fn all_distinct(values: &Vec<String>) -> (r: bool)
    ensures
        r == distinct_texts(texts(values@)),
{
    let ghost t = texts(values@);
    let mut j: usize = 0;
    while j < values.len()
        invariant
            j <= values@.len(),
            t == texts(values@),
            forall|a: int, b: int| 0 <= a < b < j ==> t[a] != t[b],
        decreases values.len() - j,
    {
        let mut i: usize = 0;
        while i < j
            invariant
                i <= j < values@.len(),
                t == texts(values@),
                forall|a: int, b: int| 0 <= a < b < j ==> t[a] != t[b],
                forall|a: int| 0 <= a < i ==> t[a] != t[j as int],
            decreases j - i,
        {
            if str_eq(values[i].as_str(), values[j].as_str()) {
                assert(t[i as int] == t[j as int]);
                return false;
            }
            i = i + 1;
        }
        j = j + 1;
    }
    true
}

/// What a job's stored outcome turned out to be.
#[derive(Debug, Clone, Copy, PartialEq, Eq, Structural)]
pub enum OutcomeShape {
    /// The job was never settled.
    Absent,
    /// The plate was skipped.
    Skipped,
    /// A readable settlement outcome.
    Settled,
    /// Text that is no outcome at all.
    Unreadable,
}

/// The shape of a stored outcome: absent, a JSON object whose `kind` is
/// `skipped`, a readable settlement outcome (`readable` says whether the text
/// reads as one), or neither.
pub open spec fn outcome_shape_spec(outcome: Option<Seq<char>>, readable: bool) -> OutcomeShape {
    match outcome {
        None => OutcomeShape::Absent,
        Some(text) => if json_kind_text(text) == Some("skipped"@) {
            OutcomeShape::Skipped
        } else if readable {
            OutcomeShape::Settled
        } else {
            OutcomeShape::Unreadable
        },
    }
}

/// Tells a stored outcome's shape, reading its `kind` with `serde_json`.
pub fn outcome_shape(outcome: Option<&str>, readable: bool) -> (r: OutcomeShape)
    ensures
        r == outcome_shape_spec(
            match outcome {
                Some(t) => Some(t@),
                None => None,
            },
            readable,
        ),
{
    match outcome {
        None => OutcomeShape::Absent,
        Some(text) => {
            let skipped = match json_kind(text) {
                Some(kind) => str_eq(kind.as_str(), "skipped"),
                None => false,
            };
            proof {
                reveal_strlit("skipped");
            }
            if skipped {
                OutcomeShape::Skipped
            } else if readable {
                OutcomeShape::Settled
            } else {
                OutcomeShape::Unreadable
            }
        },
    }
}

/// Only a settled job carries a settlement version; an unreadable outcome is never valid.
pub open spec fn job_outcome_ok_spec(outcome: OutcomeShape, settlement_version: u32) -> bool {
    match outcome {
        OutcomeShape::Absent => settlement_version == 0,
        OutcomeShape::Skipped => settlement_version == 0,
        OutcomeShape::Settled => settlement_version != 0,
        OutcomeShape::Unreadable => false,
    }
}

/// Whether a job's outcome agrees with its settlement version.
pub fn job_outcome_ok(outcome: OutcomeShape, settlement_version: u32) -> (r: bool)
    ensures
        r == job_outcome_ok_spec(outcome, settlement_version),
{
    match outcome {
        OutcomeShape::Absent => settlement_version == 0,
        OutcomeShape::Skipped => settlement_version == 0,
        OutcomeShape::Settled => settlement_version != 0,
        OutcomeShape::Unreadable => false,
    }
}

proof fn lemma_no_pair(s: Seq<char>, p: Seq<char>, k: int)
    requires
        p.len() >= 2,
        0 <= k,
        forall|i: int| k <= i && i + 1 < s.len() ==> !(#[trigger] s[i] == p[0] && s[i + 1] == p[1]),
    ensures
        crate::text::find_from(s, p, k) is None,
    decreases s.len() - k,
{
    if k + p.len() <= s.len() {
        if crate::text::occurs_at(s, p, k) {
            assert(s.subrange(k, k + p.len())[0] == p[0]);
            assert(s.subrange(k, k + p.len())[1] == p[1]);
            assert(s[k] == p[0] && s[k + 1] == p[1]);
        }
        lemma_no_pair(s, p, k + 1);
    }
}

proof fn lemma_key_not_sensitive(key: Seq<char>)
    requires
        key == "theme"@ || key == "locale"@ || key == "notifications_enabled"@,
        forall|i: int| 0 <= i < key.len() ==> 'a' <= #[trigger] key[i] <= 'z' || key[i] == '_',
    ensures
        !contains_sensitive_spec(key),
{
    reveal_strlit("token");
    reveal_strlit("password");
    reveal_strlit("secret");
    reveal_strlit("credential");
    assert(ascii_lower_seq(key) =~= key);
    assert forall|w: int| 0 <= w < sensitive_words().len() implies (#[trigger] find_seq(
        ascii_lower_seq(key),
        sensitive_words()[w],
    )) is None by {
        let p = sensitive_words()[w];
        assert(p.len() >= 2);
        assert forall|i: int| 0 <= i && i + 1 < key.len() implies !(#[trigger] key[i] == p[0] && key[i + 1] == p[1]) by {
            if key == "theme"@ {
                reveal_strlit("theme");
            } else if key == "locale"@ {
                reveal_strlit("locale");
            } else {
                reveal_strlit("notifications_enabled");
            }
        }
        lemma_no_pair(key, p, 0);
    }
}

/// Every value the application offers for a setting survives a backup: both
/// themes, each interface language, and either notification choice.
pub proof fn lemma_offered_settings_are_restored(v: Seq<char>)
    ensures
        (v == "light"@ || v == "dark"@) ==> setting_allowed_spec("theme"@, v),
        supported_locale(v) ==> setting_allowed_spec("locale"@, v),
        (v == "true"@ || v == "false"@) ==> setting_allowed_spec("notifications_enabled"@, v),
{
    reveal_strlit("theme");
    reveal_strlit("locale");
    reveal_strlit("notifications_enabled");
    lemma_key_not_sensitive("theme"@);
    lemma_key_not_sensitive("locale"@);
    lemma_key_not_sensitive("notifications_enabled"@);
}

} // verus!
