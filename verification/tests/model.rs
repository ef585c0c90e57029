use ratatui_vault::model::Model;

#[test]
fn serde() {
    let a = Model {
        version: 1,
        nonce: vec![1, 2, 3],
        salt: vec![1, 2, 3],
        ciphertext: vec![1, 2, 3],
    };
    let buf = a.serialize();
    let b = Model::deserialize(&buf);
    assert_eq!(b.version, a.version);
    assert_eq!(b.nonce, a.nonce);
    assert_eq!(b.salt, a.salt);
    assert_eq!(b.ciphertext, a.ciphertext);
}

#[test]
fn serialize_layout_is_big_endian_length_prefixed() {
    let a = Model {
        version: 7,
        nonce: vec![9],
        salt: vec![],
        ciphertext: vec![1, 2],
    };
    assert_eq!(
        a.serialize(),
        vec![7, 0, 0, 0, 1, 9, 0, 0, 0, 0, 0, 0, 0, 2, 1, 2]
    );
}

#[test]
fn unversioned_file_reads_as_version_0() {
    let bytes = vec![0, 0, 0, 2, 5, 6, 0, 0, 0, 1, 7, 0, 0, 0, 0, 99];
    let m = Model::deserialize(&bytes);
    assert_eq!(m.version, 0);
    assert_eq!(m.nonce, vec![5, 6]);
    assert_eq!(m.salt, vec![7]);
    assert_eq!(m.ciphertext, Vec::<u8>::new());
}

#[test]
fn invalid_content_is_refused() {
    assert!(Model::try_deserialize(&[]).is_none());
    assert!(Model::try_deserialize(&[1, 0, 0]).is_none());
    assert!(Model::try_deserialize(&[1, 0, 0, 0, 5, 1, 2]).is_none());
    assert!(Model::try_deserialize(&[1, 0, 0, 0, 0, 0, 0, 0, 0]).is_none());
    assert!(Model::try_deserialize(&[1, 0, 0, 0, 0, 0, 0, 0, 0, 0, 0, 0, 0]).is_some());
}

#[test]
fn version_0_does_not_round_trip() {
    let a = Model {
        version: 0,
        nonce: vec![1, 2, 3],
        salt: vec![],
        ciphertext: vec![],
    };
    let b = Model::try_deserialize(&a.serialize());
    assert!(b.map_or(true, |b| b.nonce != a.nonce));
}

#[test]
fn trailing_bytes_are_ignored_and_serialize_restores_the_prefix() {
    let a = Model {
        version: 2,
        nonce: vec![4; 24],
        salt: vec![5; 16],
        ciphertext: vec![6, 7, 8],
    };
    let mut bytes = a.serialize();
    let written = bytes.clone();
    bytes.extend([1, 2, 3]);
    let b = Model::deserialize(&bytes);
    assert_eq!(b.serialize(), written);
}
