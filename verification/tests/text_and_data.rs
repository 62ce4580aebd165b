use objc2_tools::library::{Example, Library, LibraryData};
use objc2_tools::sorted::insert_sorted;
use objc2_tools::text::{
    chars_equal, chars_of, lex_less, trimmed, write_bits, write_int, write_num, write_ptr,
};

fn s(x: &str) -> String {
    x.to_string()
}

#[test]
fn numbers_in_each_base() {
    let mut out = String::new();
    write_num(&mut out, 0, 10);
    out.push(' ');
    write_num(&mut out, 1234567890, 10);
    out.push(' ');
    write_num(&mut out, 0xbeef, 16);
    out.push(' ');
    write_num(&mut out, u64::MAX, 16);
    out.push(' ');
    write_num(&mut out, 5, 2);
    assert_eq!(out, "0 1234567890 beef ffffffffffffffff 101");
}

#[test]
fn signed_numbers_and_bits() {
    let mut out = String::new();
    write_int(&mut out, -42);
    out.push(' ');
    write_int(&mut out, i64::MIN);
    out.push(' ');
    write_int(&mut out, 7);
    assert_eq!(out, "-42 -9223372036854775808 7");
    let mut bits = String::new();
    write_bits(&mut bits, 5, 8);
    assert_eq!(bits, "00000101");
    let mut ptr = String::new();
    write_ptr(&mut ptr, 0x10);
    assert_eq!(ptr, "0x10");
}

#[test]
fn trimming_and_ordering() {
    let t: String = trimmed(&chars_of("\t a b \n")).into_iter().collect();
    assert_eq!(t, "a b");
    assert!(trimmed(&chars_of("   ")).is_empty());
    assert!(lex_less(&chars_of("ab"), &chars_of("abc")));
    assert!(lex_less(&chars_of("Zebra"), &chars_of("apple")));
    assert!(!lex_less(&chars_of("b"), &chars_of("abc")));
    assert!(!lex_less(&chars_of("same"), &chars_of("same")));
    assert!(chars_equal(&chars_of("été"), &chars_of("été")));
    assert!(!chars_equal(&chars_of("a"), &chars_of("ab")));
}

#[test]
fn sorted_insertion_keeps_order_and_drops_repeats() {
    let mut v: Vec<String> = Vec::new();
    for x in ["m", "b", "z", "b", "a", "m"] {
        insert_sorted(&mut v, s(x));
    }
    assert_eq!(v, vec![s("a"), s("b"), s("m"), s("z")]);
}

#[test]
fn data_clone_default_and_equality() {
    let data = LibraryData {
        name: Some(s("N")),
        extra_docs: s("docs"),
        has_additions: true,
        has_fixes: false,
        examples: vec![Example { name: s("e"), description: s("d") }],
        gnustep_library: None,
    };
    let copy = data.clone();
    assert!(copy == data);
    assert!(LibraryData::default() != data);
    let empty = LibraryData::default();
    assert!(empty.name.is_none() && empty.extra_docs.is_empty() && empty.examples.is_empty());
    assert!(Library::new("L", &data) == Library::new("L", &copy));
    assert!(Library::new("L", &data) != Library::new("M", &data));
    assert!(Library::default() == Library::new("", &LibraryData::default()));
}
