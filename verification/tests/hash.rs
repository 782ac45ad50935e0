use renki::hash::Fnv;

#[test]
fn matches_the_published_fnv_1a_64_vectors() {
    for (input, want) in [
        ("", 0xcbf2_9ce4_8422_2325u64),
        ("a", 0xaf63_dc4c_8601_ec8cu64),
        ("foobar", 0x8594_4171_f739_67e8u64),
    ] {
        let mut h = Fnv::new();
        h.write(input.as_bytes());
        assert_eq!(h.hex(), format!("{want:016x}"), "input {input:?}");
    }
}

#[test]
fn field_separator_prevents_collision() {
    let mut a = Fnv::new();
    a.write_field("ab");
    a.write_field("c");
    let mut b = Fnv::new();
    b.write_field("a");
    b.write_field("bc");
    assert_ne!(a.hex(), b.hex());
}

#[test]
fn the_field_form_is_pinned_too() {
    let mut h = Fnv::new();
    h.write_field("a stable input");
    assert_eq!(h.hex(), "ccda88ec7937a739");

    let mut two = Fnv::new();
    two.write_field("a stable");
    two.write_field("input");
    assert_ne!(h.hex(), two.hex(), "the separator stopped separating");
}

#[test]
fn the_bytes_form_is_the_text_form_of_the_same_bytes() {
    let mut a = Fnv::new();
    a.write_field("path");
    let mut b = Fnv::new();
    b.write_bytes(b"path");
    assert_eq!(a.hex(), b.hex());
}
