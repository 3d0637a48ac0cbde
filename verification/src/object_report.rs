//! What the snapshot archive tool prints.

use vstd::prelude::*;

use crate::json::{
    entries_view, entry, object, text_json, texts_json, texts_view, uint_json, uint_view, Json,
    JsonView,
};
use crate::text::{copy, dec, decimal, texts, wide_decimal};

verus! {

pub const RESTORE_NEXT: &'static str =
    "traza-server --data-dir <fresh dir> --restore <restored_to>";

pub const DELETE_NOTE: &'static str =
    "this snapshot id is permanently retired and can never be reused";

pub const CLEANUP_NOTE: &'static str =
    "listed objects only; a crashed publisher's incomplete multipart parts need the bucket's AbortIncompleteMultipartUpload lifecycle rule";

/// A number, or `null`.
pub open spec fn uint_or_null(n: Option<u64>) -> JsonView {
    match n {
        Some(n) => uint_view(n as nat),
        None => JsonView::Null,
    }
}

fn optional_json(n: Option<u64>) -> (r: Json)
    ensures
        r@ == uint_or_null(n),
{
    match n {
        Some(n) => uint_json(n),
        None => Json::Null,
    }
}

/// The sum of some sizes.
pub open spec fn sum_of(sizes: Seq<u64>) -> nat
    decreases sizes.len(),
{
    if sizes.len() == 0 {
        0
    } else {
        sum_of(sizes.drop_last()) + sizes.last() as nat
    }
}

fn sum_json(sizes: &Vec<u64>) -> (r: Json)
    ensures
        r@ == uint_view(sum_of(sizes@)),
{
    let mut total: u128 = 0;
    let mut i: usize = 0;
    assert(sizes@.take(0) =~= Seq::<u64>::empty());
    while i < sizes.len()
        invariant
            i <= sizes@.len(),
            total == sum_of(sizes@.take(i as int)),
            total <= i * u64::MAX,
        decreases sizes@.len() - i,
    {
        assert(sizes@.take(i + 1).drop_last() =~= sizes@.take(i as int));
        total = total + sizes[i] as u128;
        i += 1;
    }
    assert(sizes@.take(sizes@.len() as int) =~= sizes@);
    Json::Number(wide_decimal(total))
}

/// A pin that was taken and verified.
#[derive(Debug)]
pub struct Pin {
    pub label: String,
    pub generation: u64,
    pub path: String,
}

pub open spec fn pinned_of(x: Pin) -> JsonView {
    JsonView::Object(
        seq![
            ("pin"@, JsonView::Text(x.label@)),
            ("generation"@, uint_view(x.generation as nat)),
            ("path"@, JsonView::Text(x.path@)),
            ("verified"@, JsonView::Bool(true)),
        ],
    )
}

pub fn pin_report(x: &Pin) -> (r: Json)
    ensures
        r@ == pinned_of(*x),
{
    let mut entries: Vec<(String, Json)> = Vec::new();
    entries.push(entry("pin", text_json(x.label.as_str())));
    entries.push(entry("generation", uint_json(x.generation)));
    entries.push(entry("path", text_json(x.path.as_str())));
    entries.push(entry("verified", Json::Bool(true)));
    assert(entries_view(entries@) =~= pinned_of(*x)->Object_0);
    object(entries)
}

/// A snapshot that was published.
#[derive(Debug)]
pub struct Publication {
    pub snapshot: String,
    pub generation: u64,
    pub files: u64,
    pub objects: u64,
    pub uploaded_bytes: u64,
    pub verified_bytes: u64,
    pub manifest_sha256: String,
}

pub open spec fn published_of(x: Publication) -> JsonView {
    JsonView::Object(
        seq![
            ("snapshot"@, JsonView::Text(x.snapshot@)),
            ("generation"@, uint_view(x.generation as nat)),
            ("files"@, uint_view(x.files as nat)),
            ("objects"@, uint_view(x.objects as nat)),
            ("uploaded_bytes"@, uint_view(x.uploaded_bytes as nat)),
            ("verified_bytes"@, uint_view(x.verified_bytes as nat)),
            ("manifest_sha256"@, JsonView::Text(x.manifest_sha256@)),
        ],
    )
}

pub fn publish_report(x: &Publication) -> (r: Json)
    ensures
        r@ == published_of(*x),
{
    let mut entries: Vec<(String, Json)> = Vec::new();
    entries.push(entry("snapshot", text_json(x.snapshot.as_str())));
    entries.push(entry("generation", uint_json(x.generation)));
    entries.push(entry("files", uint_json(x.files)));
    entries.push(entry("objects", uint_json(x.objects)));
    entries.push(entry("uploaded_bytes", uint_json(x.uploaded_bytes)));
    entries.push(entry("verified_bytes", uint_json(x.verified_bytes)));
    entries.push(entry("manifest_sha256", text_json(x.manifest_sha256.as_str())));
    assert(entries_view(entries@) =~= published_of(*x)->Object_0);
    object(entries)
}

/// A snapshot as a listing shows it. What an unfinished one does not say is
/// `null`.
#[derive(Debug)]
pub struct Summary {
    pub id: String,
    pub complete: bool,
    pub uploading: bool,
    pub deleted: bool,
    pub foreign: bool,
    pub created_unix_ns: Option<u64>,
    pub generation: Option<u64>,
    pub files: Option<u64>,
    pub total_bytes: Option<u64>,
}

pub open spec fn listed_of(x: Summary) -> JsonView {
    JsonView::Object(
        seq![
            ("id"@, JsonView::Text(x.id@)),
            ("complete"@, JsonView::Bool(x.complete)),
            ("uploading"@, JsonView::Bool(x.uploading)),
            ("deleted"@, JsonView::Bool(x.deleted)),
            ("foreign"@, JsonView::Bool(x.foreign)),
            ("created_unix_ns"@, uint_or_null(x.created_unix_ns)),
            ("generation"@, uint_or_null(x.generation)),
            ("files"@, uint_or_null(x.files)),
            ("total_bytes"@, uint_or_null(x.total_bytes)),
        ],
    )
}

pub fn list_report(x: &Summary) -> (r: Json)
    ensures
        r@ == listed_of(*x),
{
    let mut entries: Vec<(String, Json)> = Vec::new();
    entries.push(entry("id", text_json(x.id.as_str())));
    entries.push(entry("complete", Json::Bool(x.complete)));
    entries.push(entry("uploading", Json::Bool(x.uploading)));
    entries.push(entry("deleted", Json::Bool(x.deleted)));
    entries.push(entry("foreign", Json::Bool(x.foreign)));
    entries.push(entry("created_unix_ns", optional_json(x.created_unix_ns)));
    entries.push(entry("generation", optional_json(x.generation)));
    entries.push(entry("files", optional_json(x.files)));
    entries.push(entry("total_bytes", optional_json(x.total_bytes)));
    assert(entries_view(entries@) =~= listed_of(*x)->Object_0);
    object(entries)
}

/// A snapshot by its manifest.
#[derive(Debug)]
pub struct Manifest {
    pub snapshot: String,
    pub store: String,
    pub created_unix_ns: u64,
    pub generation: u64,
    pub segment_format: u64,
    pub chunk_bytes: u64,
    pub file_bytes: Vec<u64>,
    pub objects: u64,
}

pub open spec fn inspected_of(x: Manifest) -> JsonView {
    JsonView::Object(
        seq![
            ("snapshot"@, JsonView::Text(x.snapshot@)),
            ("store"@, JsonView::Text(x.store@)),
            ("created_unix_ns"@, uint_view(x.created_unix_ns as nat)),
            ("generation"@, uint_view(x.generation as nat)),
            ("segment_format"@, uint_view(x.segment_format as nat)),
            ("chunk_bytes"@, uint_view(x.chunk_bytes as nat)),
            ("files"@, uint_view(x.file_bytes@.len())),
            ("objects"@, uint_view(x.objects as nat)),
            ("total_bytes"@, uint_view(sum_of(x.file_bytes@))),
        ],
    )
}

pub fn inspect_report(x: &Manifest) -> (r: Json)
    ensures
        r@ == inspected_of(*x),
{
    let mut entries: Vec<(String, Json)> = Vec::new();
    entries.push(entry("snapshot", text_json(x.snapshot.as_str())));
    entries.push(entry("store", text_json(x.store.as_str())));
    entries.push(entry("created_unix_ns", uint_json(x.created_unix_ns)));
    entries.push(entry("generation", uint_json(x.generation)));
    entries.push(entry("segment_format", uint_json(x.segment_format)));
    entries.push(entry("chunk_bytes", uint_json(x.chunk_bytes)));
    entries.push(entry("files", uint_json(x.file_bytes.len() as u64)));
    entries.push(entry("objects", uint_json(x.objects)));
    entries.push(entry("total_bytes", sum_json(&x.file_bytes)));
    assert(entries_view(entries@) =~= inspected_of(*x)->Object_0);
    object(entries)
}

/// A snapshot that was checked.
#[derive(Debug)]
pub struct Check {
    pub snapshot: String,
    pub objects: u64,
    pub verified_bytes: u64,
    pub problems: Vec<String>,
}

pub open spec fn verified_of(x: Check) -> JsonView {
    JsonView::Object(
        seq![
            ("snapshot"@, JsonView::Text(x.snapshot@)),
            ("objects"@, uint_view(x.objects as nat)),
            ("verified_bytes"@, uint_view(x.verified_bytes as nat)),
            ("intact"@, JsonView::Bool(x.problems@.len() == 0)),
            ("problems"@, texts_view(texts(x.problems@))),
        ],
    )
}

pub fn verify_report(x: &Check) -> (r: Json)
    ensures
        r@ == verified_of(*x),
{
    let mut entries: Vec<(String, Json)> = Vec::new();
    entries.push(entry("snapshot", text_json(x.snapshot.as_str())));
    entries.push(entry("objects", uint_json(x.objects)));
    entries.push(entry("verified_bytes", uint_json(x.verified_bytes)));
    entries.push(entry("intact", Json::Bool(x.problems.len() == 0)));
    entries.push(entry("problems", texts_json(&x.problems)));
    assert(entries_view(entries@) =~= verified_of(*x)->Object_0);
    object(entries)
}

/// Why a check fails the command: it found problems.
pub fn check_failure(x: &Check) -> (r: Option<String>)
    ensures
        match r {
            Some(message) => x.problems@.len() > 0 && message@ == "verification found problems"@,
            None => x.problems@.len() == 0,
        },
{
    if x.problems.len() == 0 {
        None
    } else {
        Some(copy("verification found problems"))
    }
}

/// A snapshot that was restored.
#[derive(Debug)]
pub struct Restoration {
    pub snapshot: String,
    pub generation: u64,
    pub files: u64,
    pub fetched_bytes: u64,
    pub into: String,
}

pub open spec fn restored_of(x: Restoration) -> JsonView {
    JsonView::Object(
        seq![
            ("snapshot"@, JsonView::Text(x.snapshot@)),
            ("generation"@, uint_view(x.generation as nat)),
            ("files"@, uint_view(x.files as nat)),
            ("fetched_bytes"@, uint_view(x.fetched_bytes as nat)),
            ("restored_to"@, JsonView::Text(x.into@)),
            ("next"@, JsonView::Text(RESTORE_NEXT@)),
        ],
    )
}

pub fn restore_report(x: &Restoration) -> (r: Json)
    ensures
        r@ == restored_of(*x),
{
    let mut entries: Vec<(String, Json)> = Vec::new();
    entries.push(entry("snapshot", text_json(x.snapshot.as_str())));
    entries.push(entry("generation", uint_json(x.generation)));
    entries.push(entry("files", uint_json(x.files)));
    entries.push(entry("fetched_bytes", uint_json(x.fetched_bytes)));
    entries.push(entry("restored_to", text_json(x.into.as_str())));
    entries.push(entry("next", text_json(RESTORE_NEXT)));
    assert(entries_view(entries@) =~= restored_of(*x)->Object_0);
    object(entries)
}

/// A snapshot that was deleted.
#[derive(Debug)]
pub struct Deletion {
    pub snapshot: String,
    pub objects_deleted: u64,
}

pub open spec fn deleted_of(x: Deletion) -> JsonView {
    JsonView::Object(
        seq![
            ("snapshot"@, JsonView::Text(x.snapshot@)),
            ("objects_deleted"@, uint_view(x.objects_deleted as nat)),
            ("tombstoned"@, JsonView::Bool(true)),
            ("note"@, JsonView::Text(DELETE_NOTE@)),
        ],
    )
}

pub fn delete_report(x: &Deletion) -> (r: Json)
    ensures
        r@ == deleted_of(*x),
{
    let mut entries: Vec<(String, Json)> = Vec::new();
    entries.push(entry("snapshot", text_json(x.snapshot.as_str())));
    entries.push(entry("objects_deleted", uint_json(x.objects_deleted)));
    entries.push(entry("tombstoned", Json::Bool(true)));
    entries.push(entry("note", text_json(DELETE_NOTE)));
    assert(entries_view(entries@) =~= deleted_of(*x)->Object_0);
    object(entries)
}

/// What an unfinished upload left behind, once it was removed.
#[derive(Debug)]
pub struct Cleanup {
    pub snapshot: String,
    pub objects_deleted: u64,
}

pub open spec fn cleaned_of(x: Cleanup) -> JsonView {
    JsonView::Object(
        seq![
            ("snapshot"@, JsonView::Text(x.snapshot@)),
            ("objects_deleted"@, uint_view(x.objects_deleted as nat)),
            ("note"@, JsonView::Text(CLEANUP_NOTE@)),
        ],
    )
}

pub fn cleanup_report(x: &Cleanup) -> (r: Json)
    ensures
        r@ == cleaned_of(*x),
{
    let mut entries: Vec<(String, Json)> = Vec::new();
    entries.push(entry("snapshot", text_json(x.snapshot.as_str())));
    entries.push(entry("objects_deleted", uint_json(x.objects_deleted)));
    entries.push(entry("note", text_json(CLEANUP_NOTE)));
    assert(entries_view(entries@) =~= cleaned_of(*x)->Object_0);
    object(entries)
}

/// What a search read.
#[derive(Clone, Copy, Debug, PartialEq, Eq, Structural)]
pub struct ReadStats {
    pub fetched_bytes: u64,
    pub remote_total_bytes: u64,
    pub chunk_fetches: u64,
    pub cache_hits: u64,
}

pub open spec fn read_line_of(spans: nat, stats: ReadStats) -> Seq<char> {
    dec(spans) + " span(s); fetched "@ + dec(stats.fetched_bytes as nat) + " of "@ + dec(
        stats.remote_total_bytes as nat,
    ) + " remote bytes ("@ + dec(stats.chunk_fetches as nat) + " chunk fetches, "@ + dec(
        stats.cache_hits as nat,
    ) + " cache hits)"@
}

/// The line that says what a search read.
pub fn read_line(spans: usize, stats: ReadStats) -> (r: String)
    ensures
        r@ == read_line_of(spans as nat, stats),
{
    let mut r = decimal(spans as u64);
    r.push_str(" span(s); fetched ");
    r.push_str(decimal(stats.fetched_bytes).as_str());
    r.push_str(" of ");
    r.push_str(decimal(stats.remote_total_bytes).as_str());
    r.push_str(" remote bytes (");
    r.push_str(decimal(stats.chunk_fetches).as_str());
    r.push_str(" chunk fetches, ");
    r.push_str(decimal(stats.cache_hits).as_str());
    r.push_str(" cache hits)");
    r
}

/// The refusal of a payload that a snapshot does not hold.
pub fn missing_payload(reference: &str) -> (r: String)
    ensures
        r@ == reference@ + ": not in this snapshot"@,
{
    let mut r = copy(reference);
    r.push_str(": not in this snapshot");
    r
}

/// The refusal to pin a store that a live server owns.
pub fn owned_store(data_dir: &str, label: &str) -> (r: String)
    ensures
        r@ == data_dir@
            + ": a live server owns this store \u{2014} use its backup API instead: curl -X POST http://<server>/v1/backups/"@
            + label@,
{
    let mut r = copy(data_dir);
    r.push_str(
        ": a live server owns this store \u{2014} use its backup API instead: curl -X POST http://<server>/v1/backups/",
    );
    r.push_str(label);
    r
}

proof fn lemma_report_names()
    ensures
        "pin"@.len() == 3,
        "generation"@.len() == 10 && "generation"@[0] == 'g',
        "path"@.len() == 4 && "path"@[0] == 'p',
        "verified"@.len() == 8 && "verified"@[0] == 'v',
        "snapshot"@.len() == 8 && "snapshot"@[0] == 's',
        "files"@.len() == 5 && "files"@[0] == 'f',
        "objects"@.len() == 7 && "objects"@[0] == 'o',
        "uploaded_bytes"@.len() == 14 && "uploaded_bytes"@[0] == 'u',
        "verified_bytes"@.len() == 14 && "verified_bytes"@[0] == 'v',
        "manifest_sha256"@.len() == 15 && "manifest_sha256"@[0] == 'm',
        "id"@.len() == 2,
        "complete"@.len() == 8 && "complete"@[0] == 'c',
        "uploading"@.len() == 9,
        "deleted"@.len() == 7 && "deleted"@[0] == 'd',
        "foreign"@.len() == 7 && "foreign"@[0] == 'f',
        "created_unix_ns"@.len() == 15 && "created_unix_ns"@[0] == 'c',
        "total_bytes"@.len() == 11 && "total_bytes"@[0] == 't',
        "store"@.len() == 5 && "store"@[0] == 's',
        "segment_format"@.len() == 14 && "segment_format"@[0] == 's',
        "chunk_bytes"@.len() == 11 && "chunk_bytes"@[0] == 'c',
        "intact"@.len() == 6,
        "fetched_bytes"@.len() == 13,
        "restored_to"@.len() == 11 && "restored_to"@[0] == 'r',
        "next"@.len() == 4 && "next"@[0] == 'n' && "next"@[1] == 'e',
        "objects_deleted"@.len() == 15 && "objects_deleted"@[0] == 'o',
        "tombstoned"@.len() == 10 && "tombstoned"@[0] == 't',
        "note"@.len() == 4 && "note"@[0] == 'n' && "note"@[1] == 'o',
        "problems"@.len() == 8 && "problems"@[0] == 'p',
{
    reveal_strlit("pin");
    reveal_strlit("generation");
    reveal_strlit("path");
    reveal_strlit("verified");
    reveal_strlit("snapshot");
    reveal_strlit("files");
    reveal_strlit("objects");
    reveal_strlit("uploaded_bytes");
    reveal_strlit("verified_bytes");
    reveal_strlit("manifest_sha256");
    reveal_strlit("id");
    reveal_strlit("complete");
    reveal_strlit("uploading");
    reveal_strlit("deleted");
    reveal_strlit("foreign");
    reveal_strlit("created_unix_ns");
    reveal_strlit("total_bytes");
    reveal_strlit("store");
    reveal_strlit("segment_format");
    reveal_strlit("chunk_bytes");
    reveal_strlit("intact");
    reveal_strlit("fetched_bytes");
    reveal_strlit("restored_to");
    reveal_strlit("next");
    reveal_strlit("objects_deleted");
    reveal_strlit("tombstoned");
    reveal_strlit("note");
    reveal_strlit("problems");
}

/// What is reported of a pin, each thing under its own name.
pub proof fn law_a_pin_shows_its_fields(x: Pin)
    ensures
        ({
            let v = pinned_of(x);
            &&& v.field("pin"@) == Some(JsonView::Text(x.label@))
            &&& v.field("generation"@) == Some(JsonView::Number(dec((x.generation) as nat)))
            &&& v.field("path"@) == Some(JsonView::Text(x.path@))
            &&& v.field("verified"@) == Some(JsonView::Bool(true))
        }),
{
    lemma_report_names();
    reveal_with_fuel(crate::json::entry_from, 6);
}

/// What is reported of a publication, each thing under its own name.
pub proof fn law_a_publication_shows_its_fields(x: Publication)
    ensures
        ({
            let v = published_of(x);
            &&& v.field("snapshot"@) == Some(JsonView::Text(x.snapshot@))
            &&& v.field("generation"@) == Some(JsonView::Number(dec((x.generation) as nat)))
            &&& v.field("files"@) == Some(JsonView::Number(dec((x.files) as nat)))
            &&& v.field("objects"@) == Some(JsonView::Number(dec((x.objects) as nat)))
            &&& v.field("uploaded_bytes"@) == Some(JsonView::Number(dec((x.uploaded_bytes) as nat)))
            &&& v.field("verified_bytes"@) == Some(JsonView::Number(dec((x.verified_bytes) as nat)))
            &&& v.field("manifest_sha256"@) == Some(JsonView::Text(x.manifest_sha256@))
        }),
{
    lemma_report_names();
    reveal_with_fuel(crate::json::entry_from, 9);
}

/// What is reported of a listed snapshot, each thing under its own name.
pub proof fn law_a_listed_snapshot_shows_its_fields(x: Summary)
    ensures
        ({
            let v = listed_of(x);
            &&& v.field("id"@) == Some(JsonView::Text(x.id@))
            &&& v.field("complete"@) == Some(JsonView::Bool(x.complete))
            &&& v.field("uploading"@) == Some(JsonView::Bool(x.uploading))
            &&& v.field("deleted"@) == Some(JsonView::Bool(x.deleted))
            &&& v.field("foreign"@) == Some(JsonView::Bool(x.foreign))
            &&& v.field("created_unix_ns"@) == Some(uint_or_null(x.created_unix_ns))
            &&& v.field("generation"@) == Some(uint_or_null(x.generation))
            &&& v.field("files"@) == Some(uint_or_null(x.files))
            &&& v.field("total_bytes"@) == Some(uint_or_null(x.total_bytes))
        }),
{
    lemma_report_names();
    reveal_with_fuel(crate::json::entry_from, 11);
}

/// What is reported of a manifest, each thing under its own name.
pub proof fn law_a_manifest_shows_its_fields(x: Manifest)
    ensures
        ({
            let v = inspected_of(x);
            &&& v.field("snapshot"@) == Some(JsonView::Text(x.snapshot@))
            &&& v.field("store"@) == Some(JsonView::Text(x.store@))
            &&& v.field("created_unix_ns"@) == Some(JsonView::Number(dec((x.created_unix_ns) as nat)))
            &&& v.field("generation"@) == Some(JsonView::Number(dec((x.generation) as nat)))
            &&& v.field("segment_format"@) == Some(JsonView::Number(dec((x.segment_format) as nat)))
            &&& v.field("chunk_bytes"@) == Some(JsonView::Number(dec((x.chunk_bytes) as nat)))
            &&& v.field("files"@) == Some(JsonView::Number(dec(x.file_bytes@.len())))
            &&& v.field("objects"@) == Some(JsonView::Number(dec((x.objects) as nat)))
            &&& v.field("total_bytes"@) == Some(JsonView::Number(dec(sum_of(x.file_bytes@))))
        }),
{
    lemma_report_names();
    reveal_with_fuel(crate::json::entry_from, 11);
}

/// What is reported of a check, each thing under its own name.
pub proof fn law_a_check_shows_its_fields(x: Check)
    ensures
        ({
            let v = verified_of(x);
            &&& v.field("snapshot"@) == Some(JsonView::Text(x.snapshot@))
            &&& v.field("objects"@) == Some(JsonView::Number(dec((x.objects) as nat)))
            &&& v.field("verified_bytes"@) == Some(JsonView::Number(dec((x.verified_bytes) as nat)))
            &&& v.field("intact"@) == Some(JsonView::Bool(x.problems@.len() == 0))
        }),
{
    lemma_report_names();
    reveal_with_fuel(crate::json::entry_from, 6);
}

/// What is reported of a restoration, each thing under its own name.
pub proof fn law_a_restoration_shows_its_fields(x: Restoration)
    ensures
        ({
            let v = restored_of(x);
            &&& v.field("snapshot"@) == Some(JsonView::Text(x.snapshot@))
            &&& v.field("generation"@) == Some(JsonView::Number(dec((x.generation) as nat)))
            &&& v.field("files"@) == Some(JsonView::Number(dec((x.files) as nat)))
            &&& v.field("fetched_bytes"@) == Some(JsonView::Number(dec((x.fetched_bytes) as nat)))
            &&& v.field("restored_to"@) == Some(JsonView::Text(x.into@))
            &&& v.field("next"@) == Some(JsonView::Text(RESTORE_NEXT@))
        }),
{
    lemma_report_names();
    reveal_with_fuel(crate::json::entry_from, 8);
}

/// What is reported of a deletion, each thing under its own name.
pub proof fn law_a_deletion_shows_its_fields(x: Deletion)
    ensures
        ({
            let v = deleted_of(x);
            &&& v.field("snapshot"@) == Some(JsonView::Text(x.snapshot@))
            &&& v.field("objects_deleted"@) == Some(JsonView::Number(dec((x.objects_deleted) as nat)))
            &&& v.field("tombstoned"@) == Some(JsonView::Bool(true))
            &&& v.field("note"@) == Some(JsonView::Text(DELETE_NOTE@))
        }),
{
    lemma_report_names();
    reveal_with_fuel(crate::json::entry_from, 6);
}

/// What is reported of a cleanup, each thing under its own name.
pub proof fn law_a_cleanup_shows_its_fields(x: Cleanup)
    ensures
        ({
            let v = cleaned_of(x);
            &&& v.field("snapshot"@) == Some(JsonView::Text(x.snapshot@))
            &&& v.field("objects_deleted"@) == Some(JsonView::Number(dec((x.objects_deleted) as nat)))
            &&& v.field("note"@) == Some(JsonView::Text(CLEANUP_NOTE@))
        }),
{
    lemma_report_names();
    reveal_with_fuel(crate::json::entry_from, 5);
}

/// A number that is not there is null, and one that is, is shown.
pub proof fn law_numbers_that_are_not_there(n: u64)
    ensures
        uint_or_null(None) is Null,
        uint_or_null(Some(n)) == JsonView::Number(dec(n as nat)),
{
}

/// A sum of sizes: of two lists it is that of both, and of one size the size.
pub proof fn law_sizes_add_up(a: Seq<u64>, b: Seq<u64>, size: u64)
    ensures
        sum_of(a + b) == sum_of(a) + sum_of(b),
        sum_of(seq![size]) == size,
    decreases b.len(),
{
    reveal_with_fuel(sum_of, 2);
    assert(seq![size].drop_last() =~= Seq::<u64>::empty());
    if b.len() == 0 {
        assert(a + b =~= a);
    } else {
        law_sizes_add_up(a, b.drop_last(), size);
        assert((a + b).drop_last() =~= a + b.drop_last());
        assert((a + b).last() == b.last());
    }
}

/// A snapshot is intact exactly when no problem was found.
pub proof fn law_intact_snapshots(x: Check)
    ensures
        verified_of(x).field("problems"@) == Some(texts_view(texts(x.problems@))),
        verified_of(x).field("intact"@) == Some(JsonView::Bool(true)) <==> x.problems@.len() == 0,
{
    lemma_report_names();
    reveal_with_fuel(crate::json::entry_from, 6);
}

} // verus!
