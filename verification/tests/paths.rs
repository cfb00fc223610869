use pw::paths::{identity_path_in, join_path, store_dir_in};

#[test]
fn join_path_puts_one_separator() {
    assert_eq!(join_path(b"/a", b"b"), b"/a/b".to_vec());
    assert_eq!(join_path(b"/a/", b"b"), b"/a/b".to_vec());
    assert_eq!(join_path(b"", b"b"), b"b".to_vec());
}

#[test]
fn store_and_key_file_locations() {
    assert_eq!(store_dir_in(b"/home/u/.local/share/pw"), b"/home/u/.local/share/pw/store".to_vec());
    assert_eq!(identity_path_in(b"/home/u/.config/pw"), b"/home/u/.config/pw/key.txt".to_vec());
}
