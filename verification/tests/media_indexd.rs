use lumelo::library::{
    album_root_and_disc_no, album_title_for_root, artwork_mime_type, build_track_search_content,
    build_volume_descriptor, derive_track_title, display_name_from_relative_path, duration_to_millis,
    file_extension, file_grouping_key, group_scan_files, is_audio_file, known_audio_header,
    normalize_text,
    parent_relative_path, parse_command, parse_disc_number, parse_track_number,
    preferred_cover_index, resolve_group_album_context, resolve_track_record, should_skip_name,
    split_genres, stable_artwork_ref_id, stable_id, stable_track_uid, FileScanRecord,
    MediaIndexCommand, ParsedAudioMetadata, VolumeDescriptor, DEFAULT_LIBRARY_DB_PATH,
    UNKNOWN_ARTIST,
};
use lumelo::linking::{cover_ref_id_for, lookup_id};
use lumelo::scan::ScanAssembler;

#[test]
fn ensure_schema_uses_default_path_constant_shape() {
    assert!(DEFAULT_LIBRARY_DB_PATH.ends_with("/library.db"));
}

#[test]
fn tag_context_promotes_group_level_album_identity() {
    let volume = demo_volume();
    let tagged = || {
        file_record(
            "Pink Floyd - Wish You Were Here/01 - Shine On.flac",
            "Pink Floyd - Wish You Were Here",
            ParsedAudioMetadata {
                title: Some("Shine On You Crazy Diamond".to_string()),
                artist: Some("Pink Floyd".to_string()),
                album_artist: Some("Pink Floyd".to_string()),
                album_title: Some("Wish You Were Here".to_string()),
                track_no: Some(1),
                disc_no: Some(1),
                year: Some(1975),
                genres: vec!["Progressive Rock".to_string(), "Art Rock".to_string()],
                duration_ms: Some(81000),
                sample_rate: Some(96000),
                bit_depth: Some(24),
            },
        )
    };
    let sparse = || {
        file_record(
            "Pink Floyd - Wish You Were Here/02 - Welcome.flac",
            "Pink Floyd - Wish You Were Here",
            ParsedAudioMetadata {
                title: Some("Welcome to the Machine".to_string()),
                ..ParsedAudioMetadata::default()
            },
        )
    };

    let context = resolve_group_album_context(
        &[tagged(), sparse()],
        &volume.label,
        &tagged().album_root_dir_hint,
    );
    let resolved = resolve_track_record(&volume, &sparse(), &context);

    assert_eq!(context.source_mode, "tag");
    assert_eq!(resolved.album_title, "Wish You Were Here");
    assert_eq!(resolved.album_artist, "Pink Floyd");
    assert_eq!(resolved.artist, "Pink Floyd");
    assert_eq!(resolved.source_mode, "tag");
}

#[test]
fn directory_fallback_remains_when_album_tags_are_missing() {
    let volume = demo_volume();
    let file = || {
        file_record(
            "Loose Tracks/01 - Unknown.flac",
            "Loose Tracks",
            ParsedAudioMetadata::default(),
        )
    };

    let context = resolve_group_album_context(&[file()], &volume.label, "Loose Tracks");
    let resolved = resolve_track_record(&volume, &file(), &context);

    assert_eq!(context.source_mode, "directory_fallback");
    assert_eq!(resolved.album_artist, UNKNOWN_ARTIST);
    assert_eq!(resolved.album_title, "Loose Tracks");
    assert_eq!(resolved.title, "Unknown");
}

#[test]
fn file_grouping_key_splits_mixed_folder_by_tagged_album_identity() {
    let first = file_record(
        "Mixed Folder/01 - Song A.flac",
        "Mixed Folder",
        ParsedAudioMetadata {
            album_title: Some("Album A".to_string()),
            artist: Some("Artist A".to_string()),
            ..ParsedAudioMetadata::default()
        },
    );
    let second = file_record(
        "Mixed Folder/02 - Song B.flac",
        "Mixed Folder",
        ParsedAudioMetadata {
            album_title: Some("Album B".to_string()),
            artist: Some("Artist B".to_string()),
            ..ParsedAudioMetadata::default()
        },
    );
    let fallback = file_record(
        "Mixed Folder/03 - Untagged.flac",
        "Mixed Folder",
        ParsedAudioMetadata::default(),
    );

    assert_ne!(file_grouping_key(&first), file_grouping_key(&second));
    assert_ne!(file_grouping_key(&first), file_grouping_key(&fallback));
    assert!(file_grouping_key(&fallback).starts_with("fallback:"));
}

#[test]
fn split_genres_breaks_simple_multi_value_strings() {
    assert_eq!(
        split_genres("Ambient; Electronic / Drone"),
        vec![
            "Ambient".to_string(),
            "Drone".to_string(),
            "Electronic".to_string()
        ]
    );
}

fn demo_volume() -> VolumeDescriptor {
    VolumeDescriptor {
        volume_uuid: "scan-demo".to_string(),
        label: "Demo Volume".to_string(),
        mount_path: "/media/demo".to_string(),
        fs_type: None,
    }
}

fn file_record(
    relative_path: &str,
    album_root_dir_hint: &str,
    metadata: ParsedAudioMetadata,
) -> FileScanRecord {
    let filename = std::path::Path::new(relative_path)
        .file_name()
        .and_then(|value| value.to_str())
        .unwrap()
        .to_string();
    FileScanRecord {
        relative_path: relative_path.to_string(),
        filename,
        derived_title: "Unknown".to_string(),
        derived_track_no: Some(1),
        directory_disc_no: 1,
        format: "flac".to_string(),
        file_mtime: 1,
        indexed_at: 1,
        size: 10,
        album_root_dir_hint: album_root_dir_hint.to_string(),
        metadata,
    }
}

fn fnv1a_hex(input: &str) -> String {
    let mut hash = 0xcbf29ce484222325_u64;
    for byte in input.as_bytes() {
        hash ^= u64::from(*byte);
        hash = hash.wrapping_mul(0x100000001b3);
    }
    format!("{hash:016x}")
}

#[test]
fn stable_id_is_fnv1a_in_sixteen_hex_digits() {
    assert_eq!(stable_id(""), "cbf29ce484222325");
    assert_eq!(stable_id("a"), "af63dc4c8601ec8c");
    assert_eq!(stable_id("Album Ünïcode"), fnv1a_hex("Album Ünïcode"));
}

#[test]
fn stable_ids_of_scanned_files_hash_their_identity_lines() {
    assert_eq!(
        stable_track_uid("vol-1", "Album/01.flac", -5, 42),
        fnv1a_hex("file\nvol-1\nAlbum/01.flac\n-5\n42\n0\n1")
    );
    assert_eq!(
        stable_artwork_ref_id("vol-1", "Album/folder.jpg", 1_700_000_000, 9),
        fnv1a_hex("directory_file\nvol-1\nAlbum/folder.jpg\n1700000000\n9\n0\n1")
    );
}

#[test]
fn normalize_text_collapses_whitespace_and_lowers_ascii() {
    assert_eq!(normalize_text("  Pink\t Floyd \n"), "pink floyd");
    assert_eq!(normalize_text("ÄBC"), "Äbc");
}

#[test]
fn split_genres_falls_back_to_whole_tag_and_drops_duplicates() {
    assert_eq!(split_genres("Rock;Rock / rock"), vec!["Rock".to_string(), "rock".to_string()]);
    assert_eq!(split_genres(" ; "), vec![";".to_string()]);
    assert_eq!(split_genres("   "), Vec::<String>::new());
}

#[test]
fn track_numbers_and_titles_come_from_file_names() {
    assert_eq!(parse_track_number("07 - Finale"), Some(7));
    assert_eq!(parse_track_number("Finale"), None);
    assert_eq!(parse_track_number("99999999999999999999 x"), None);
    assert_eq!(derive_track_title("01 - Opening"), "Opening");
    assert_eq!(derive_track_title("02_Afterglow"), "Afterglow");
    assert_eq!(derive_track_title("  03.  Long__Name  "), "Long Name");
    assert_eq!(derive_track_title("2024"), "2024");
}

#[test]
fn disc_directories_move_the_album_to_their_parent() {
    assert_eq!(parse_disc_number("Disc 2"), Some(2));
    assert_eq!(parse_disc_number("CD1"), Some(1));
    assert_eq!(parse_disc_number("disk-03"), Some(3));
    assert_eq!(parse_disc_number("Discography"), None);
    assert_eq!(
        album_root_and_disc_no("Album Two/Disc 2"),
        ("Album Two".to_string(), 2)
    );
    assert_eq!(album_root_and_disc_no("Disc 2"), ("Disc 2".to_string(), 2));
    assert_eq!(album_root_and_disc_no("Album One"), ("Album One".to_string(), 1));
    assert_eq!(album_root_and_disc_no(""), (String::new(), 1));
}

#[test]
fn directory_names_come_from_relative_paths() {
    assert_eq!(parent_relative_path("Album/Disc 1/01.flac"), Some("Album/Disc 1".to_string()));
    assert_eq!(parent_relative_path("01.flac"), None);
    assert_eq!(display_name_from_relative_path("Album/Disc 1"), "Disc 1");
    assert_eq!(album_title_for_root("", "Demo Volume"), "Demo Volume");
    assert_eq!(album_title_for_root("Artists/Album One", "Demo Volume"), "Album One");
}

#[test]
fn file_kinds_are_read_from_extensions() {
    assert!(is_audio_file("Album/01.FLAC"));
    assert!(!is_audio_file("Album/notes.txt"));
    assert!(!is_audio_file("Album/noext"));
    assert_eq!(file_extension("Album/folder.JPG"), "jpg");
    assert_eq!(file_extension("Album/noext"), "");
    assert_eq!(artwork_mime_type("jpeg"), Some("image/jpeg"));
    assert_eq!(artwork_mime_type("png"), Some("image/png"));
    assert_eq!(artwork_mime_type("gif"), None);
    assert!(should_skip_name(".hidden"));
    assert!(should_skip_name("._resource"));
    assert!(!should_skip_name("visible"));
}

#[test]
fn durations_are_stored_in_milliseconds_or_not_at_all() {
    assert_eq!(duration_to_millis(0), None);
    assert_eq!(duration_to_millis(250), Some(250));
    assert_eq!(duration_to_millis(u128::MAX), Some(i64::MAX));
}

#[test]
fn commands_are_read_from_arguments() {
    let args = |items: &[&str]| items.iter().map(|s| s.to_string()).collect::<Vec<_>>();
    assert!(matches!(parse_command(&args(&[])), Ok(MediaIndexCommand::EnsureSchema)));
    assert!(matches!(parse_command(&args(&["seed-demo"])), Ok(MediaIndexCommand::SeedDemo)));
    match parse_command(&args(&["scan-dir", "/media/usb"])) {
        Ok(MediaIndexCommand::ScanDir { scan_root }) => assert_eq!(scan_root, "/media/usb"),
        other => panic!("unexpected {other:?}"),
    }
    assert_eq!(
        parse_command(&args(&["scan-dir"])).unwrap_err(),
        "scan-dir requires a directory path"
    );
    assert_eq!(
        parse_command(&args(&["rebuild"])).unwrap_err(),
        "unsupported command: rebuild (expected ensure-schema, seed-demo, or scan-dir)"
    );
    assert_eq!(
        parse_command(&args(&["seed-demo", "extra"])).unwrap_err(),
        "unexpected extra argument: extra"
    );
    assert_eq!(MediaIndexCommand::SeedDemo.as_str(), "seed-demo");
}

#[test]
fn volume_descriptor_falls_back_to_directory_name_and_path_hash() {
    let volume = build_volume_descriptor("/media/usb-stick", None, None, None);
    assert_eq!(volume.label, "usb-stick");
    assert_eq!(volume.volume_uuid, format!("scan-{}", fnv1a_hex("/media/usb-stick")));
    let named = build_volume_descriptor("/", Some("Label".to_string()), Some("uuid-1".to_string()), Some("vfat".to_string()));
    assert_eq!(named.label, "Label");
    assert_eq!(named.volume_uuid, "uuid-1");
    assert_eq!(named.fs_type.as_deref(), Some("vfat"));
    assert_eq!(build_volume_descriptor("/", None, None, None).label, "Scanned Library");
}

#[test]
fn folder_jpg_is_preferred_over_cover_jpg() {
    let names = |items: &[&str]| items.iter().map(|s| s.to_string()).collect::<Vec<_>>();
    assert_eq!(preferred_cover_index(&names(&["cover.jpg", "Folder.JPG"])), Some(1));
    assert_eq!(preferred_cover_index(&names(&["a.txt", "COVER.jpg", "cover.jpg"])), Some(1));
    assert_eq!(preferred_cover_index(&names(&["front.png"])), None);
}

#[test]
fn search_content_skips_blank_parts() {
    let volume = demo_volume();
    let file = file_record(
        "Album/01 - Song.flac",
        "Album",
        ParsedAudioMetadata {
            title: Some("Song".to_string()),
            genres: vec!["Jazz".to_string(), "  ".to_string()],
            ..ParsedAudioMetadata::default()
        },
    );
    let context = resolve_group_album_context(std::slice::from_ref(&file), &volume.label, "Album");
    let resolved = resolve_track_record(&volume, &file, &context);
    assert_eq!(
        build_track_search_content(&file, &resolved),
        "Song Unknown Artist Unknown Artist Album 01 - Song.flac Album/01 - Song.flac Album Jazz"
    );
}

#[test]
fn group_context_picks_the_album_most_files_name() {
    let volume = demo_volume();
    let tagged = |path: &str, album: &str, year: Option<i64>| {
        file_record(
            path,
            "Mixed",
            ParsedAudioMetadata {
                album_title: Some(album.to_string()),
                album_artist: Some("Artist".to_string()),
                year,
                ..ParsedAudioMetadata::default()
            },
        )
    };
    let files = vec![
        tagged("Mixed/1.flac", "Beta", None),
        tagged("Mixed/2.flac", "Alpha", Some(1999)),
        tagged("Mixed/3.flac", "Alpha", Some(2001)),
    ];
    let context = resolve_group_album_context(&files, &volume.label, "Mixed");
    assert_eq!(context.album_title, "Alpha");
    assert_eq!(context.year, Some(1999));

    let tie = vec![tagged("Mixed/1.flac", "Alpha", None), tagged("Mixed/2.flac", "Beta", None)];
    let context = resolve_group_album_context(&tie, &volume.label, "Mixed");
    assert_eq!(context.album_title, "Beta");
}

#[test]
fn scan_assembler_builds_albums_tracks_and_search_entries() {
    let volume = demo_volume();
    let make = |path: &str, hint: &str, title: &str, disc: Option<i64>, duration: Option<i64>| {
        file_record(
            path,
            hint,
            ParsedAudioMetadata {
                title: Some(title.to_string()),
                artist: Some("Band".to_string()),
                album_title: Some("Record".to_string()),
                disc_no: disc,
                duration_ms: duration,
                genres: vec!["Rock".to_string()],
                ..ParsedAudioMetadata::default()
            },
        )
    };
    let files = vec![
        make("Record/Disc 2/01.flac", "Record", "Second Side", Some(2), Some(1000)),
        make("Record/Disc 1/01.flac", "Record", "First Side", Some(1), Some(500)),
        file_record("Loose/a.flac", "Loose", ParsedAudioMetadata::default()),
    ];
    let groups = group_scan_files(files);
    assert_eq!(groups.len(), 2);
    assert_eq!(groups[0].album_root_dir_hint, "Loose");
    assert_eq!(groups[1].files.len(), 2);

    let mut assembler = ScanAssembler::new();
    for group in groups {
        let artwork = if group.album_root_dir_hint == "Record" {
            Some("cover-1".to_string())
        } else {
            None
        };
        assembler.add_group(&volume, group, artwork);
    }
    let output = assembler.finish(&volume.volume_uuid, 77);

    assert_eq!(output.tracks.len(), 3);
    assert_eq!(output.albums.len(), 2);
    let record = output.albums.iter().find(|album| album.album_title == "Record").unwrap();
    assert_eq!(record.track_count, 2);
    assert_eq!(record.disc_count, 2);
    assert_eq!(record.total_duration_ms, 1500);
    assert_eq!(record.indexed_at, 77);
    assert!(output.albums[0].album_uid < output.albums[1].album_uid);
    assert_eq!(output.artist_names, vec!["Band".to_string(), "Unknown Artist".to_string()]);
    assert_eq!(output.genre_names, vec!["Rock".to_string()]);
    assert_eq!(output.search_entries.len(), 5);
    assert_eq!(output.search_entries[3].doc_type, "album");
    assert_eq!(output.album_artwork_keys, vec![(record.album_uid.clone(), "cover-1".to_string())]);
    for track in &output.tracks {
        assert!(output.albums.iter().any(|album| album.album_uid == track.album_uid));
    }
}

#[test]
fn known_audio_header_checks_container_magic() {
    assert!(known_audio_header("/music/a.WAV", b"RIFF\x10\0\0\0WAVEfmt "));
    assert!(!known_audio_header("/music/a.wav", b"RIFF\x10\0\0\0AVI "));
    assert!(!known_audio_header("/music/a.wav", b"RIFF"));
    assert!(known_audio_header("/music/a.dff", b"FRM8\0\0\0\0"));
    assert!(!known_audio_header("/music/a.dff", b"FRM"));
    assert!(known_audio_header("/music/a.dsf", b"DSD \x1c\0"));
    assert!(known_audio_header("/music/a.dsd", b"DSD "));
    assert!(!known_audio_header("/music/a.flac", b"DSD "));
    assert!(!known_audio_header("/music/noext", b"RIFF\0\0\0\0WAVE"));
}

#[test]
fn linking_uses_latest_ids_and_chains_cover_keys() {
    use_linking();
}

fn use_linking() {
    let artwork_ids = vec![("hash-a".to_string(), 1), ("hash-b".to_string(), 2), ("hash-a".to_string(), 3)];
    assert_eq!(lookup_id(&artwork_ids, "hash-a"), Some(3));
    assert_eq!(lookup_id(&artwork_ids, "hash-b"), Some(2));
    assert_eq!(lookup_id(&artwork_ids, "hash-c"), None);

    let keys = vec![
        ("album-1".to_string(), "hash-b".to_string()),
        ("album-2".to_string(), "hash-z".to_string()),
    ];
    assert_eq!(cover_ref_id_for("album-1", &keys, &artwork_ids), Some(2));
    assert_eq!(cover_ref_id_for("album-2", &keys, &artwork_ids), None);
    assert_eq!(cover_ref_id_for("album-3", &keys, &artwork_ids), None);
}
