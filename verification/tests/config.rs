use gix_blame::{
    ArchiveFormat, AuthMode, BlameOptions, BlameStatistics, ChangeKind, DiffLineKind, EntryMode,
    Error, Head, Kind, Message, MessageKind, ObjectId, ObjectKind, Reference, SdkConfig, Target,
    WriteMode,
};

#[test]
fn default_config_values() {
    let config = SdkConfig::default();
    assert_eq!(config.pool_size, 100);
    assert_eq!(config.object_cache_bytes, 16 * 1024 * 1024);
    assert_eq!(config.idle_timeout_secs, 300);
    assert_eq!(config.max_blob_size, 100 * 1024 * 1024);
}

#[test]
fn builder_overrides_every_field() {
    let config = SdkConfig::builder()
        .pool_size(7)
        .object_cache_mb(2)
        .idle_timeout(60)
        .max_blob_size_mb(5)
        .build();
    assert_eq!(config.pool_size, 7);
    assert_eq!(config.object_cache_bytes, 2 * 1024 * 1024);
    assert_eq!(config.idle_timeout_secs, 60);
    assert_eq!(config.max_blob_size, 5 * 1024 * 1024);
}

#[test]
fn builder_defaults_match_the_default_config() {
    let from_builder = SdkConfig::builder().build();
    assert_eq!(from_builder, SdkConfig::default());
}

#[test]
fn blame_options_default_to_whole_file_with_renames() {
    let options = BlameOptions::default();
    assert_eq!(options.range, None);
    assert!(options.follow_renames);
}

#[test]
fn blame_statistics_start_at_zero() {
    let stats = BlameStatistics::default();
    assert_eq!(stats.commits_traversed, 0);
    assert_eq!(stats.blobs_diffed, 0);
}

#[test]
fn message_keeps_its_text() {
    let message = Message::new(String::from("not a commit"));
    assert_eq!(message.0, "not a commit");
}

#[test]
fn classification_enums_compare_by_variant() {
    assert_eq!(ObjectKind::Blob, ObjectKind::Blob);
    assert_ne!(ObjectKind::Tree, ObjectKind::Commit);
    assert_ne!(EntryMode::Blob, EntryMode::BlobExecutable);
    assert_eq!(ChangeKind::Modified, ChangeKind::Modified);
    assert_ne!(DiffLineKind::Addition, DiffLineKind::Deletion);
    assert_ne!(WriteMode::Binary, WriteMode::OneLfTerminatedLinePerWriteCall);
    assert_eq!(MessageKind::Flush, MessageKind::Flush);
    assert_ne!(MessageKind::Delimiter, MessageKind::ResponseEnd);
    assert_eq!(MessageKind::Text(b"done"), MessageKind::Text(b"done"));
    assert_eq!(ArchiveFormat::Tar, ArchiveFormat::Tar);
    assert_ne!(
        ArchiveFormat::TarGz {
            compression_level: None
        },
        ArchiveFormat::Zip {
            compression_level: None
        }
    );
    let auth = AuthMode::PublicKey {
        username: String::from("git"),
    };
    assert_eq!(
        auth,
        AuthMode::PublicKey {
            username: String::from("git")
        }
    );
}

#[test]
fn head_reports_detachment_and_its_reference() {
    let id = ObjectId::from_hex(b"134385f6d781b7e97062102c6a483440bfda2a03").unwrap();
    let detached = Head {
        kind: Kind::Detached {
            target: id,
            peeled: None,
        },
    };
    assert!(detached.is_detached());
    assert_eq!(detached.name(), None);

    let reference = Reference {
        name: b"refs/heads/main".to_vec(),
        target: Target::Object(id),
    };
    let symbolic = Head {
        kind: Kind::Symbolic(reference.clone()),
    };
    assert!(!symbolic.is_detached());
    assert_eq!(symbolic.name(), Some(&b"refs/heads/main".to_vec()));
    assert_eq!(symbolic.into_reference(), reference);

    let unborn = Head {
        kind: Kind::Unborn(b"refs/heads/new".to_vec()),
    };
    assert!(!unborn.is_detached());
    assert_eq!(unborn.name(), Some(&b"refs/heads/new".to_vec()));
}

#[test]
fn error_messages_name_their_cause() {
    assert!(Error::CommitMissing.message().contains("commit"));
    assert!(Error::FileMissing.message().contains("file"));
    assert!(Error::InvalidOneBasedLineRange.message().contains("range"));
}
