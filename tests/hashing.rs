use anki_backup::content_hash;

#[test]
fn hash_is_stable_for_same_content() {
    let data = b"anki-backup-test";
    let left = content_hash(data);
    let right = content_hash(data);
    assert_eq!(left, right);
}

#[test]
fn hash_changes_when_content_changes() {
    let one = content_hash(b"v1");
    let two = content_hash(b"v2");
    assert_ne!(one, two);
}

#[test]
fn hash_is_hex_sha256() {
    assert_eq!(
        content_hash(b"abc"),
        "ba7816bf8f01cfea414140de5dae2223b00361a396177a9cb410ff61f20015ad"
    );
    assert_eq!(
        content_hash(b""),
        "e3b0c44298fc1c149afbf4c8996fb92427ae41e4649b934ca495991b7852b855"
    );
}
