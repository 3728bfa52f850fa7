use nvmebench::{ascii_to_string, version_parts};

#[test]
fn identification_fields_lose_padding() {
    let field = b"Samsung SSD 980 PRO   \0\0\0\0\0";
    assert_eq!(ascii_to_string(field), "Samsung SSD 980 PRO");
    let field = b"  spaced  \0";
    assert_eq!(ascii_to_string(field), "spaced");
    assert_eq!(ascii_to_string(b"\0\0\0\0"), "");
    assert_eq!(ascii_to_string(b""), "");
    assert_eq!(ascii_to_string(b"inner\0nul\0"), "inner\u{0}nul");
}

#[test]
fn non_ascii_bytes_become_replacement_characters() {
    let field = [b'o', b'k', 0xff, b'!'];
    assert_eq!(ascii_to_string(&field), "ok\u{fffd}!");
}

#[test]
fn version_word_splits_into_three_fields() {
    assert_eq!(version_parts(0x0001_0400), (1, 4, 0));
    assert_eq!(version_parts(0x0002_0001), (2, 0, 1));
    assert_eq!(version_parts(0xffff_ffff), (0xffff, 0xff, 0xff));
}
