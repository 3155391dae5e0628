use cstfs::hasher::{hash_bytes, hex_u64};
use cstfs::media::{is_audio_extension, is_image_extension, is_media_extension, is_video_extension};
use cstfs::scan::{classify_file, path, FileVerdict};

#[test]
fn media_extensions() {
    for e in ["png", "jpg", "jpeg", "avif", "webp", "gif"] {
        assert!(is_image_extension(e));
        assert!(is_media_extension(e));
    }
    for e in ["mp3", "opus", "flac"] {
        assert!(is_audio_extension(e));
        assert!(is_media_extension(e));
    }
    for e in ["mkv", "mp4", "mov", "avi", "webm"] {
        assert!(is_video_extension(e));
        assert!(is_media_extension(e));
    }
    for e in ["", "txt", "PNG", "jp", "db"] {
        assert!(!is_media_extension(e));
    }
    assert!(!is_image_extension("mp3"));
    assert!(!is_audio_extension("mkv"));
    assert!(!is_video_extension("gif"));
}

#[test]
fn hex_is_sixteen_lowercase_digits() {
    assert_eq!(hex_u64(0), "0000000000000000");
    assert_eq!(hex_u64(0xdeadbeef), "00000000deadbeef");
    assert_eq!(hex_u64(u64::MAX), "ffffffffffffffff");
    assert_eq!(hex_u64(0x0123456789abcdef), "0123456789abcdef");
}

#[test]
fn digest_is_seahash_in_hex() {
    let data = b"some picture bytes";
    assert_eq!(hash_bytes(data), format!("{:016x}", seahash::hash(data)));
    assert_eq!(hash_bytes(b""), format!("{:016x}", seahash::hash(b"")));
    assert_ne!(hash_bytes(b"a"), hash_bytes(b"b"));
    assert_eq!(hash_bytes(data).len(), 16);
}

#[test]
fn files_are_classified_by_name_and_extension() {
    assert_eq!(classify_file("x.jpg", Some("jpg")), FileVerdict::Index);
    assert_eq!(classify_file("cstfs.db", Some("db")), FileVerdict::IndexFile);
    assert_eq!(classify_file("notes.txt", Some("txt")), FileVerdict::NotMedia);
    assert_eq!(classify_file("README", None), FileVerdict::NoExtension);
}

#[test]
fn index_file_lives_in_the_root() {
    assert_eq!(path("/data/pix"), "/data/pix/cstfs.db");
    assert_eq!(path("."), "./cstfs.db");
}
