use objc2_tools::block::{BlockClasses, Isa};

fn classes() -> BlockClasses {
    BlockClasses { global_block: 0x1000, stack_block: 0x2000, malloc_block: 0x3000 }
}

#[test]
fn test_isa() {
    let classes = classes();
    let isa = Isa(classes.global_block);
    assert!(isa.is_global(&classes));
    assert!(!isa.is_stack(&classes));
    assert!(!isa.is_malloc(&classes));
    let isa = Isa(classes.stack_block);
    assert!(!isa.is_global(&classes));
    assert!(isa.is_stack(&classes));
    assert!(!isa.is_malloc(&classes));
    let isa = Isa(classes.malloc_block);
    assert!(!isa.is_global(&classes));
    assert!(!isa.is_stack(&classes));
    assert!(isa.is_malloc(&classes));
    let isa = Isa(0);
    assert!(!isa.is_global(&classes));
    assert!(!isa.is_stack(&classes));
    assert!(!isa.is_malloc(&classes));
}

use objc2_tools::block::{
    Block, BlockDescriptor, BlockFlags, DescriptorContents, BLOCK_DEALLOCATING,
    BLOCK_HAS_COPY_DISPOSE, BLOCK_HAS_EXTENDED_LAYOUT, BLOCK_HAS_SIGNATURE, BLOCK_IS_GLOBAL,
    BLOCK_REFCOUNT_MASK,
};

#[test]
fn isa_debug_names_the_block_classes() {
    let classes = classes();
    assert_eq!(Isa(0x1000).debug_string(&classes), "_NSConcreteGlobalBlock");
    assert_eq!(Isa(0x2000).debug_string(&classes), "_NSConcreteStackBlock");
    assert_eq!(Isa(0x3000).debug_string(&classes), "_NSConcreteMallocBlock");
    assert_eq!(Isa(0xdead_beef).debug_string(&classes), "0xdeadbeef");
    assert_eq!(Isa(0).debug_string(&classes), "0x0");
}

#[test]
fn isa_debug_prefers_global_when_addresses_coincide() {
    let classes = BlockClasses { global_block: 7, stack_block: 7, malloc_block: 7 };
    assert_eq!(Isa(7).debug_string(&classes), "_NSConcreteGlobalBlock");
}

#[test]
fn flags_debug_of_zero() {
    assert_eq!(
        BlockFlags(0).debug_string(false),
        "BlockFlags { value: \"00000000000000000000000000000000\", deallocating: false, \
         inline_layout_string: false, small_descriptor: false, is_noescape: false, \
         needs_free: false, has_copy_dispose: false, has_ctor: false, is_gc: false, \
         is_global: false, use_stret: false, has_signature: false, has_extended_layout: false, \
         over_referenced: false, reference_count: 0, .. }"
    );
}

#[test]
fn flags_debug_decodes_bits_and_count() {
    let f = BLOCK_HAS_COPY_DISPOSE | BLOCK_HAS_SIGNATURE | (3 << 1) | BLOCK_DEALLOCATING;
    assert_eq!(
        BlockFlags(f).debug_string(false),
        "BlockFlags { value: \"01000010000000000000000000000111\", deallocating: true, \
         inline_layout_string: false, small_descriptor: false, is_noescape: false, \
         needs_free: false, has_copy_dispose: true, has_ctor: false, is_gc: false, \
         is_global: false, use_stret: false, has_signature: true, has_extended_layout: false, \
         over_referenced: false, reference_count: 3, .. }"
    );
}

#[test]
fn flags_debug_of_negative_word_and_full_count() {
    let f = BLOCK_HAS_EXTENDED_LAYOUT | BLOCK_IS_GLOBAL;
    let text = BlockFlags(f).debug_string(false);
    assert!(text.starts_with("BlockFlags { value: \"10010000000000000000000000000000\","));
    assert!(text.contains("is_global: true"));
    assert!(text.contains("has_extended_layout: true"));
    let full = BlockFlags(BLOCK_REFCOUNT_MASK).debug_string(false);
    assert!(full.contains("over_referenced: true, reference_count: 32767, .. }"));
}

fn contents() -> DescriptorContents {
    DescriptorContents {
        reserved: 0,
        size: 32,
        copy: Some(0x1a2b),
        dispose: None,
        encoding: Some(b"v8@?0".to_vec()),
    }
}

#[test]
fn descriptor_debug_of_null() {
    let d = BlockDescriptor { has_copy_dispose: true, has_signature: true, descriptor: None };
    assert_eq!(d.debug_string(false), "(null)");
}

#[test]
fn descriptor_debug_per_variant() {
    let c = contents();
    let d = |cd: bool, sig: bool| {
        BlockDescriptor { has_copy_dispose: cd, has_signature: sig, descriptor: Some(&c) }
            .debug_string(false)
    };
    assert_eq!(d(false, false), "BlockDescriptor { reserved: 0, size: 32 }");
    assert_eq!(
        d(true, false),
        "BlockDescriptor { reserved: 0, size: 32, copy: Some(0x1a2b), dispose: None }"
    );
    assert_eq!(d(false, true), "BlockDescriptor { reserved: 0, size: 32, encoding: Some(\"v8@?0\") }");
    assert_eq!(
        d(true, true),
        "BlockDescriptor { reserved: 0, size: 32, copy: Some(0x1a2b), dispose: None, \
         encoding: Some(\"v8@?0\") }"
    );
}

#[test]
fn descriptor_debug_escapes_the_encoding() {
    let c = DescriptorContents {
        reserved: 7,
        size: 18446744073709551615,
        copy: None,
        dispose: Some(0xff),
        encoding: Some(b"a\"b\\\n\t\r'\x01\x7f\xab".to_vec()),
    };
    let d = BlockDescriptor { has_copy_dispose: false, has_signature: true, descriptor: Some(&c) };
    assert_eq!(
        d.debug_string(false),
        "BlockDescriptor { reserved: 7, size: 18446744073709551615, \
         encoding: Some(\"a\\\"b\\\\\\n\\t\\r\\'\\x01\\x7f\\xab\") }"
    );
    let none = DescriptorContents { encoding: None, ..c };
    let d = BlockDescriptor { has_copy_dispose: false, has_signature: true, descriptor: Some(&none) };
    assert_eq!(d.debug_string(false), "BlockDescriptor { reserved: 7, size: 18446744073709551615, encoding: None }");
}

#[test]
fn block_debug_shows_layout() {
    let classes = classes();
    let block = Block {
        isa: 0x3000,
        flags: BLOCK_HAS_COPY_DISPOSE | (1 << 1),
        reserved: -5,
        invoke: Some(0x4242),
        descriptor: Some(contents()),
    };
    assert_eq!(
        block.debug_string(&classes, false),
        "Block { isa: _NSConcreteMallocBlock, flags: BlockFlags { value: \
         \"00000010000000000000000000000010\", deallocating: false, inline_layout_string: false, \
         small_descriptor: false, is_noescape: false, needs_free: false, has_copy_dispose: true, \
         has_ctor: false, is_gc: false, is_global: false, use_stret: false, has_signature: false, \
         has_extended_layout: false, over_referenced: false, reference_count: 1, .. }, \
         reserved: -5, invoke: Some(0x4242), descriptor: BlockDescriptor { reserved: 0, \
         size: 32, copy: Some(0x1a2b), dispose: None }, .. }"
    );
}

#[test]
fn block_debug_with_null_pointers() {
    let classes = classes();
    let block = Block { isa: 0xabc, flags: 0, reserved: 0, invoke: None, descriptor: None };
    let text = block.debug_string(&classes, false);
    assert!(text.starts_with("Block { isa: 0xabc, flags: BlockFlags { value: "));
    assert!(text.ends_with(", reserved: 0, invoke: None, descriptor: (null), .. }"));
}

fn flag_lines(indent: &str, value: &str, set: &[&str], count: i32, over: bool) -> String {
    let names = [
        "deallocating",
        "inline_layout_string",
        "small_descriptor",
        "is_noescape",
        "needs_free",
        "has_copy_dispose",
        "has_ctor",
        "is_gc",
        "is_global",
        "use_stret",
        "has_signature",
        "has_extended_layout",
    ];
    let mut out = format!("BlockFlags {{\n{indent}    value: \"{value}\",\n");
    for n in names {
        out += &format!("{indent}    {n}: {},\n", set.contains(&n));
    }
    out += &format!("{indent}    over_referenced: {over},\n");
    out += &format!("{indent}    reference_count: {count},\n");
    out += &format!("{indent}    ..\n{indent}}}");
    out
}

#[test]
fn flags_pretty_debug() {
    assert_eq!(
        BlockFlags(0).debug_string(true),
        flag_lines("", "00000000000000000000000000000000", &[], 0, false)
    );
}

#[test]
fn descriptor_pretty_debug() {
    let c = contents();
    let d = BlockDescriptor { has_copy_dispose: true, has_signature: true, descriptor: Some(&c) };
    let width = (usize::BITS / 4) as usize;
    let expected = format!(
        "BlockDescriptor {{\n    reserved: 0,\n    size: 32,\n    copy: Some(\n        0x{:0width$x},\n    ),\n    dispose: None,\n    encoding: Some(\n        \"v8@?0\",\n    ),\n}}",
        0x1a2b,
        width = width
    );
    assert_eq!(d.debug_string(true), expected);
    let null = BlockDescriptor { has_copy_dispose: true, has_signature: true, descriptor: None };
    assert_eq!(null.debug_string(true), "(null)");
}

#[test]
fn block_pretty_debug() {
    let classes = classes();
    let block = Block {
        isa: 0x3000,
        flags: BLOCK_HAS_COPY_DISPOSE | (1 << 1),
        reserved: -5,
        invoke: Some(0x4242),
        descriptor: Some(contents()),
    };
    let width = (usize::BITS / 4) as usize;
    let expected = format!(
        "Block {{\n    isa: _NSConcreteMallocBlock,\n    flags: {},\n    reserved: -5,\n    invoke: Some(\n        0x{:0width$x},\n    ),\n    descriptor: BlockDescriptor {{\n        reserved: 0,\n        size: 32,\n        copy: Some(\n            0x{:0width$x},\n        ),\n        dispose: None,\n    }},\n    ..\n}}",
        flag_lines("    ", "00000010000000000000000000000010", &["has_copy_dispose"], 1, false),
        0x4242,
        0x1a2b,
        width = width
    );
    assert_eq!(block.debug_string(&classes, true), expected);
}

#[test]
fn isa_class_tests_are_exclusive() {
    let classes = classes();
    for addr in [0usize, 0x1000, 0x2000, 0x3000, 0x4000] {
        let isa = Isa(addr);
        let hits = [isa.is_global(&classes), isa.is_stack(&classes), isa.is_malloc(&classes)];
        assert!(hits.iter().filter(|h| **h).count() <= 1);
        let text = isa.debug_string(&classes);
        assert_eq!(text == "_NSConcreteGlobalBlock", hits[0]);
        assert_eq!(text == "_NSConcreteStackBlock", hits[1]);
        assert_eq!(text == "_NSConcreteMallocBlock", hits[2]);
        assert_eq!(text == format!("{:#x}", addr), !hits.contains(&true));
    }
}
