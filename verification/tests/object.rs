//! The command line of the archive tool.

use traza::json::Json;
use traza::object::{plan, Backend, FlagError, Flags, ObjectCommand, Task};
use traza::object_report::{
    check_failure, cleanup_report, delete_report, inspect_report, list_report, missing_payload,
    owned_store, pin_report, publish_report, read_line, restore_report, verify_report, Check,
    Cleanup, Deletion, Manifest, Pin, Publication, ReadStats, Restoration, Summary,
};

fn texts(argv: &[&str]) -> Vec<String> {
    argv.iter().map(|arg| (*arg).to_owned()).collect()
}

fn message(argv: &[&str]) -> String {
    match plan(&texts(argv)) {
        Ok(command) => panic!("{command:?}"),
        Err(error) => error.message(),
    }
}

#[test]
fn flags_are_taken_by_name() {
    let mut flags = Flags::parse(&texts(&["--label", "a", "--deep", "--label", "b"])).expect("flags");
    assert!(flags.has("deep"));
    assert!(!flags.has("deep"));
    assert_eq!(flags.take("label").as_deref(), Some("a"));
    assert_eq!(flags.take("label").as_deref(), Some("b"));
    assert_eq!(flags.take("label"), None);
    assert!(flags.finish("none").is_ok());
}

#[test]
fn refusals_say_why() {
    assert_eq!(message(&[]), "a command is required");
    assert_eq!(message(&["fly"]), "unknown command \"fly\"");
    assert_eq!(
        message(&["list", "x"]),
        "unexpected argument \"x\" (flags are --name value)"
    );
    assert_eq!(message(&["list", "--bucket"]), "--bucket needs a value");
    assert_eq!(
        message(&["list"]),
        "--bucket is required (or --in-memory for testing)"
    );
    assert_eq!(message(&["pin", "--label", "x"]), "--data-dir is required");
    assert_eq!(
        message(&["query", "--in-memory", "--snapshot", "s", "--limit", "many"]),
        "--limit \"many\" is not a number"
    );
    assert_eq!(
        message(&["query", "--in-memory", "--snapshot", "s", "--sort", "up"]),
        "unknown --sort \"up\""
    );
    let unknown = FlagError::Unknown {
        name: "x".to_owned(),
        known: "--y".to_owned(),
    };
    assert_eq!(unknown.message(), "unknown flag --x (known: --y)");
}

#[test]
fn commands_are_planned() {
    assert!(matches!(plan(&texts(&["--help"])), Ok(ObjectCommand::Help)));
    assert!(matches!(plan(&texts(&["--version"])), Ok(ObjectCommand::Version)));
    match plan(&texts(&["pin", "--data-dir", "d", "--label", "l"])) {
        Ok(ObjectCommand::Pin { data_dir, label }) => {
            assert_eq!((data_dir.as_str(), label.as_str()), ("d", "l"));
        }
        other => panic!("{other:?}"),
    }
    match plan(&texts(&[
        "verify", "--snapshot", "s", "--deep", "--bucket", "b", "--region", "r", "--prefix", "p",
    ])) {
        Ok(ObjectCommand::Archive { task, remote, leftover }) => {
            assert!(matches!(task, Task::Verify { snapshot, deep: true } if snapshot == "s"));
            assert!(matches!(remote.backend, Backend::S3 { bucket, .. } if bucket == "b"));
            assert_eq!(remote.prefix.as_deref(), Some("p"));
            assert!(leftover.is_none());
        }
        other => panic!("{other:?}"),
    }
}

#[test]
fn a_leftover_flag_is_reported() {
    match plan(&texts(&["list", "--in-memory", "--limit", "5"])) {
        Ok(ObjectCommand::Archive { leftover: Some(error), .. }) => {
            assert!(error.message().starts_with("unknown flag --limit"));
        }
        other => panic!("{other:?}"),
    }
}

/// A flat document, as it would be printed.
fn shown(document: &Json) -> String {
    match document {
        Json::Null => "null".to_owned(),
        Json::Bool(b) => b.to_string(),
        Json::Number(n) => n.clone(),
        Json::Text(t) => format!("{t:?}"),
        Json::Array(items) => {
            let items: Vec<String> = items.iter().map(shown).collect();
            format!("[{}]", items.join(","))
        }
        Json::Object(entries) => {
            let entries: Vec<String> =
                entries.iter().map(|(key, value)| format!("{key:?}:{}", shown(value))).collect();
            format!("{{{}}}", entries.join(","))
        }
    }
}

#[test]
fn what_was_done_is_reported() {
    let text = |t: &str| t.to_owned();
    assert_eq!(
        shown(&pin_report(&Pin { label: text("l"), generation: 3, path: text("/p") })),
        "{\"pin\":\"l\",\"generation\":3,\"path\":\"/p\",\"verified\":true}"
    );
    assert_eq!(
        shown(&publish_report(&Publication {
            snapshot: text("s"),
            generation: 1,
            files: 2,
            objects: 3,
            uploaded_bytes: 4,
            verified_bytes: 5,
            manifest_sha256: text("m"),
        })),
        "{\"snapshot\":\"s\",\"generation\":1,\"files\":2,\"objects\":3,\"uploaded_bytes\":4,\"verified_bytes\":5,\"manifest_sha256\":\"m\"}"
    );
    assert_eq!(
        shown(&list_report(&Summary {
            id: text("s"),
            complete: false,
            uploading: true,
            deleted: false,
            foreign: false,
            created_unix_ns: None,
            generation: Some(1),
            files: None,
            total_bytes: None,
        })),
        "{\"id\":\"s\",\"complete\":false,\"uploading\":true,\"deleted\":false,\"foreign\":false,\"created_unix_ns\":null,\"generation\":1,\"files\":null,\"total_bytes\":null}"
    );
    assert_eq!(
        shown(&inspect_report(&Manifest {
            snapshot: text("s"),
            store: text("t"),
            created_unix_ns: 1,
            generation: 2,
            segment_format: 3,
            chunk_bytes: 4,
            file_bytes: vec![u64::MAX, 1],
            objects: 5,
        })),
        "{\"snapshot\":\"s\",\"store\":\"t\",\"created_unix_ns\":1,\"generation\":2,\"segment_format\":3,\"chunk_bytes\":4,\"files\":2,\"objects\":5,\"total_bytes\":18446744073709551616}"
    );
    assert_eq!(
        shown(&restore_report(&Restoration {
            snapshot: text("s"),
            generation: 1,
            files: 2,
            fetched_bytes: 3,
            into: text("/d"),
        })),
        "{\"snapshot\":\"s\",\"generation\":1,\"files\":2,\"fetched_bytes\":3,\"restored_to\":\"/d\",\"next\":\"traza-server --data-dir <fresh dir> --restore <restored_to>\"}"
    );
    assert_eq!(
        shown(&delete_report(&Deletion { snapshot: text("s"), objects_deleted: 2 })),
        "{\"snapshot\":\"s\",\"objects_deleted\":2,\"tombstoned\":true,\"note\":\"this snapshot id is permanently retired and can never be reused\"}"
    );
    assert!(shown(&cleanup_report(&Cleanup { snapshot: text("s"), objects_deleted: 2 }))
        .starts_with("{\"snapshot\":\"s\",\"objects_deleted\":2,\"note\":\"listed objects only; "));
}

#[test]
fn a_damaged_snapshot_fails_its_check() {
    let mut check = Check {
        snapshot: "s".to_owned(),
        objects: 1,
        verified_bytes: 2,
        problems: Vec::new(),
    };
    assert_eq!(
        shown(&verify_report(&check)),
        "{\"snapshot\":\"s\",\"objects\":1,\"verified_bytes\":2,\"intact\":true,\"problems\":[]}"
    );
    assert_eq!(check_failure(&check), None);
    check.problems.push("lost".to_owned());
    assert!(shown(&verify_report(&check)).ends_with("\"intact\":false,\"problems\":[\"lost\"]}"));
    assert_eq!(check_failure(&check).as_deref(), Some("verification found problems"));
    let stats = ReadStats {
        fetched_bytes: 1,
        remote_total_bytes: 2,
        chunk_fetches: 3,
        cache_hits: 4,
    };
    assert_eq!(
        read_line(5, stats),
        "5 span(s); fetched 1 of 2 remote bytes (3 chunk fetches, 4 cache hits)"
    );
    assert_eq!(missing_payload("sha256/x"), "sha256/x: not in this snapshot");
    assert!(owned_store("d", "l").ends_with("/v1/backups/l"));
}
