//! Readable descriptions of block objects: which runtime class a block
//! belongs to, what its flag word says, and what its descriptor holds.
//!
//! A block's memory is described here by plain values: the fields of its
//! layout and of the descriptor it points to, read out beforehand.
use vstd::prelude::*;

use crate::debug_struct::{
    field_entry, field_list, field_shown, lemma_struct_shows_field, some_text, struct_text,
    write_some, DebugStruct,
};
use crate::text::{
    occurs, bits_text, int_text, num_text, ptr_text, digit_char, push_char, write_bits, write_int,
    write_num, write_ptr,
};

verus! {

/// The block is being deallocated.
pub const BLOCK_DEALLOCATING: i32 = 0x0001;
/// The bits of the flag word that hold the reference count (shifted left by one).
pub const BLOCK_REFCOUNT_MASK: i32 = 0xfffe;
pub const BLOCK_INLINE_LAYOUT_STRING: i32 = 0x0020_0000;
pub const BLOCK_SMALL_DESCRIPTOR: i32 = 0x0040_0000;
pub const BLOCK_IS_NOESCAPE: i32 = 0x0080_0000;
pub const BLOCK_NEEDS_FREE: i32 = 0x0100_0000;
/// The descriptor has `copy` and `dispose` helpers.
pub const BLOCK_HAS_COPY_DISPOSE: i32 = 0x0200_0000;
pub const BLOCK_HAS_CTOR: i32 = 0x0400_0000;
pub const BLOCK_IS_GC: i32 = 0x0800_0000;
pub const BLOCK_IS_GLOBAL: i32 = 0x1000_0000;
pub const BLOCK_USE_STRET: i32 = 0x2000_0000;
/// The descriptor has a type encoding.
pub const BLOCK_HAS_SIGNATURE: i32 = 0x4000_0000;
pub const BLOCK_HAS_EXTENDED_LAYOUT: i32 = -0x8000_0000;

/// Whether `flag` is set in `flags`.
pub open spec fn flag_set(flags: i32, flag: i32) -> bool {
    flags & flag != 0
}

/// The reference count that the flag word holds.
pub open spec fn reference_count(flags: i32) -> i32 {
    (flags & BLOCK_REFCOUNT_MASK) >> 1
}

/// Whether the reference count field is saturated.
pub open spec fn over_referenced(flags: i32) -> bool {
    flags & BLOCK_REFCOUNT_MASK == BLOCK_REFCOUNT_MASK
}

/// `true` or `false`.
pub open spec fn bool_text(b: bool) -> Seq<char> {
    if b {
        "true"@
    } else {
        "false"@
    }
}

/// `digits` with zeros in front, to at least `width` characters.
pub open spec fn zero_pad(digits: Seq<char>, width: nat) -> Seq<char> {
    if digits.len() >= width {
        digits
    } else {
        Seq::new((width - digits.len()) as nat, |i: int| '0') + digits
    }
}

/// A function pointer as `Debug` prints it: in the pretty form the hex
/// digits are padded with zeros to the width of an address.
pub open spec fn fn_ptr_text(addr: usize, pretty: bool) -> Seq<char> {
    if pretty {
        seq!['0', 'x'] + zero_pad(num_text(addr as nat, 16), (usize::BITS / 4) as nat)
    } else {
        ptr_text(addr as nat)
    }
}

/// An optional function pointer as `Debug` prints it.
pub open spec fn opt_ptr_text(p: Option<usize>, pretty: bool) -> Seq<char> {
    match p {
        Some(a) => some_text(fn_ptr_text(a, pretty), pretty),
        None => "None"@,
    }
}

/// One byte as `u8::escape_ascii` writes it.
pub open spec fn escape_byte(b: u8) -> Seq<char> {
    if b == 9 {
        seq!['\\', 't']
    } else if b == 13 {
        seq!['\\', 'r']
    } else if b == 10 {
        seq!['\\', 'n']
    } else if b == 92 {
        seq!['\\', '\\']
    } else if b == 39 {
        seq!['\\', '\'']
    } else if b == 34 {
        seq!['\\', '"']
    } else if 0x20 <= b <= 0x7e {
        seq![b as char]
    } else {
        seq!['\\', 'x', digit_char((b / 16) as nat), digit_char((b % 16) as nat)]
    }
}

/// Bytes as `escape_ascii` writes them.
pub open spec fn escape_ascii(bytes: Seq<u8>) -> Seq<char>
    decreases bytes.len(),
{
    if bytes.len() == 0 {
        Seq::empty()
    } else {
        escape_ascii(bytes.drop_last()) + escape_byte(bytes.last())
    }
}

/// An optional C string, given by its bytes, as `Debug` prints an
/// `Option<&CStr>`.
pub open spec fn encoding_text(e: Option<Seq<u8>>, pretty: bool) -> Seq<char> {
    match e {
        Some(bytes) => some_text(seq!['"'] + escape_ascii(bytes) + seq!['"'], pretty),
        None => "None"@,
    }
}

fn bool_str(b: bool) -> (s: &'static str)
    ensures
        s@ == bool_text(b),
{
    if b {
        "true"
    } else {
        "false"
    }
}

fn write_fn_ptr(s: &mut String, addr: usize, pretty: bool)
    ensures
        final(s)@ == old(s)@ + fn_ptr_text(addr, pretty),
{
    if pretty {
        let ghost start = s@;
        let mut digits = String::new();
        write_num(&mut digits, addr as u64, 16);
        assert(digits@ =~= num_text(addr as nat, 16));
        let n = digits.as_str().unicode_len();
        let width = (usize::BITS / 4) as usize;
        push_char(s, '0');
        push_char(s, 'x');
        let ghost base = s@;
        let mut k: usize = n;
        while k < width
            invariant
                n == digits@.len(),
                n <= k <= width || (width < n && k == n),
                width == (usize::BITS / 4) as nat,
                s@ == base + Seq::new((k - n) as nat, |i: int| '0'),
            decreases width - k,
        {
            push_char(s, '0');
            assert(s@ =~= base + Seq::new((k + 1 - n) as nat, |i: int| '0'));
            k = k + 1;
        }
        s.append(digits.as_str());
        assert(s@ =~= start + fn_ptr_text(addr, pretty));
    } else {
        write_ptr(s, addr);
    }
}

fn write_opt_ptr(s: &mut String, p: Option<usize>, pretty: bool)
    ensures
        final(s)@ == old(s)@ + opt_ptr_text(p, pretty),
{
    match p {
        Some(a) => {
            let mut value = String::new();
            write_fn_ptr(&mut value, a, pretty);
            assert(value@ =~= fn_ptr_text(a, pretty));
            write_some(s, value.as_str(), pretty);
        },
        None => {
            s.append("None");
        },
    }
}

fn write_escaped_byte(s: &mut String, b: u8)
    ensures
        final(s)@ == old(s)@ + escape_byte(b),
{
    if b == 9 {
        push_char(s, '\\');
        push_char(s, 't');
    } else if b == 13 {
        push_char(s, '\\');
        push_char(s, 'r');
    } else if b == 10 {
        push_char(s, '\\');
        push_char(s, 'n');
    } else if b == 92 {
        push_char(s, '\\');
        push_char(s, '\\');
    } else if b == 39 {
        push_char(s, '\\');
        push_char(s, '\'');
    } else if b == 34 {
        push_char(s, '\\');
        push_char(s, '"');
    } else if 0x20 <= b && b <= 0x7e {
        push_char(s, b as char);
    } else {
        push_char(s, '\\');
        push_char(s, 'x');
        write_num(s, (b / 16) as u64, 16);
        write_num(s, (b % 16) as u64, 16);
    }
}

fn write_encoding(s: &mut String, e: &Option<Vec<u8>>, pretty: bool)
    ensures
        final(s)@ == old(s)@ + encoding_text(
            match e {
                Some(v) => Some(v@),
                None => None,
            },
            pretty,
        ),
{
    match e {
        Some(bytes) => {
            let mut quoted = String::new();
            write_quoted_bytes(&mut quoted, bytes);
            assert(quoted@ =~= seq!['"'] + escape_ascii(bytes@) + seq!['"']);
            write_some(s, quoted.as_str(), pretty);
        },
        None => {
            s.append("None");
        },
    }
}

fn write_quoted_bytes(s: &mut String, bytes: &Vec<u8>)
    ensures
        final(s)@ == old(s)@ + seq!['"'] + escape_ascii(bytes@) + seq!['"'],
{
    push_char(s, '"');
    let ghost start = s@;
    let mut i: usize = 0;
    while i < bytes.len()
        invariant
            i <= bytes.len(),
            s@ == start + escape_ascii(bytes@.subrange(0, i as int)),
        decreases bytes.len() - i,
    {
        assert(bytes@.subrange(0, i + 1).drop_last() == bytes@.subrange(0, i as int));
        write_escaped_byte(s, bytes[i]);
        i = i + 1;
    }
    assert(bytes@.subrange(0, bytes.len() as int) == bytes@);
    push_char(s, '"');
}

// ---------------------------------------------------------------------
// The class of a block
// ---------------------------------------------------------------------

/// Addresses of the three runtime classes that a block's `isa` points to.
#[derive(Clone, Copy)]
pub struct BlockClasses {
    /// `_NSConcreteGlobalBlock`
    pub global_block: usize,
    /// `_NSConcreteStackBlock`
    pub stack_block: usize,
    /// `_NSConcreteMallocBlock`
    pub malloc_block: usize,
}

impl BlockClasses {
    /// The three classes are distinct objects, none at the null address.
    pub open spec fn wf(&self) -> bool {
        &&& self.global_block != self.stack_block
        &&& self.global_block != self.malloc_block
        &&& self.stack_block != self.malloc_block
        &&& self.global_block != 0
        &&& self.stack_block != 0
        &&& self.malloc_block != 0
    }
}

/// The class pointer of a block, as an address.
#[derive(Clone, Copy)]
pub struct Isa(pub usize);

/// How `Debug` shows a class pointer: the name of a block class, or the
/// address.
pub open spec fn isa_text(isa: usize, classes: BlockClasses) -> Seq<char> {
    if isa == classes.global_block {
        "_NSConcreteGlobalBlock"@
    } else if isa == classes.stack_block {
        "_NSConcreteStackBlock"@
    } else if isa == classes.malloc_block {
        "_NSConcreteMallocBlock"@
    } else {
        ptr_text(isa as nat)
    }
}

impl Isa {
    /// Whether the class is that of global blocks.
    pub fn is_global(self, classes: &BlockClasses) -> (b: bool)
        ensures
            b == (self.0 == classes.global_block),
    {
        self.0 == classes.global_block
    }

    /// Whether the class is that of blocks on the stack.
    pub fn is_stack(self, classes: &BlockClasses) -> (b: bool)
        ensures
            b == (self.0 == classes.stack_block),
    {
        self.0 == classes.stack_block
    }

    /// Whether the class is that of blocks on the heap.
    pub fn is_malloc(self, classes: &BlockClasses) -> (b: bool)
        ensures
            b == (self.0 == classes.malloc_block),
    {
        self.0 == classes.malloc_block
    }

    /// The text that `Debug` gives, the same in the compact and the pretty
    /// form.
    pub fn debug_string(self, classes: &BlockClasses) -> (s: String)
        ensures
            s@ == isa_text(self.0, *classes),
    {
        let mut s = String::new();
        if self.is_global(classes) {
            s.append("_NSConcreteGlobalBlock");
        } else if self.is_stack(classes) {
            s.append("_NSConcreteStackBlock");
        } else if self.is_malloc(classes) {
            s.append("_NSConcreteMallocBlock");
        } else {
            write_ptr(&mut s, self.0);
        }
        s
    }
}

/// Where the three block classes are distinct objects, a class pointer is
/// of at most one of them, a null pointer is of none, and `Debug` names
/// exactly the class that the pointer is of, or shows the address when it
/// is of none.
pub proof fn law_isa_classes_exclusive(isa: Isa, classes: BlockClasses)
    requires
        classes.wf(),
    ensures
        !(isa.0 == classes.global_block && isa.0 == classes.stack_block),
        !(isa.0 == classes.global_block && isa.0 == classes.malloc_block),
        !(isa.0 == classes.stack_block && isa.0 == classes.malloc_block),
        isa.0 == 0 ==> isa.0 != classes.global_block && isa.0 != classes.stack_block && isa.0
            != classes.malloc_block,
        (isa_text(isa.0, classes) == "_NSConcreteGlobalBlock"@) == (isa.0 == classes.global_block),
        (isa_text(isa.0, classes) == "_NSConcreteStackBlock"@) == (isa.0 == classes.stack_block),
        (isa_text(isa.0, classes) == "_NSConcreteMallocBlock"@) == (isa.0
            == classes.malloc_block),
        (isa_text(isa.0, classes) == ptr_text(isa.0 as nat)) == (isa.0 != classes.global_block
            && isa.0 != classes.stack_block && isa.0 != classes.malloc_block),
{
    reveal_strlit("_NSConcreteGlobalBlock");
    reveal_strlit("_NSConcreteStackBlock");
    reveal_strlit("_NSConcreteMallocBlock");
    let g = "_NSConcreteGlobalBlock"@;
    let st = "_NSConcreteStackBlock"@;
    let m = "_NSConcreteMallocBlock"@;
    let p = ptr_text(isa.0 as nat);
    assert(g[11] == 'G' && st[11] == 'S' && m[11] == 'M');
    assert(g[0] == '_' && st[0] == '_' && m[0] == '_');
    assert(p[0] == '0');
    assert(g != st && g != m && st != m);
    assert(p != g && p != st && p != m);
}

// ---------------------------------------------------------------------
// The flag word
// ---------------------------------------------------------------------

/// A block's flag word.
#[derive(Clone, Copy, PartialEq, Eq)]
pub struct BlockFlags(pub i32);

/// The fields that `Debug` shows for a flag word.
pub open spec fn flags_fields(f: i32) -> Seq<(Seq<char>, Seq<char>)> {
    Seq::empty()
        .push(("value"@, seq!['"'] + bits_text((f as u32) as nat, 32) + seq!['"']))
        .push(("deallocating"@, bool_text(flag_set(f, BLOCK_DEALLOCATING))))
        .push(("inline_layout_string"@, bool_text(flag_set(f, BLOCK_INLINE_LAYOUT_STRING))))
        .push(("small_descriptor"@, bool_text(flag_set(f, BLOCK_SMALL_DESCRIPTOR))))
        .push(("is_noescape"@, bool_text(flag_set(f, BLOCK_IS_NOESCAPE))))
        .push(("needs_free"@, bool_text(flag_set(f, BLOCK_NEEDS_FREE))))
        .push(("has_copy_dispose"@, bool_text(flag_set(f, BLOCK_HAS_COPY_DISPOSE))))
        .push(("has_ctor"@, bool_text(flag_set(f, BLOCK_HAS_CTOR))))
        .push(("is_gc"@, bool_text(flag_set(f, BLOCK_IS_GC))))
        .push(("is_global"@, bool_text(flag_set(f, BLOCK_IS_GLOBAL))))
        .push(("use_stret"@, bool_text(flag_set(f, BLOCK_USE_STRET))))
        .push(("has_signature"@, bool_text(flag_set(f, BLOCK_HAS_SIGNATURE))))
        .push(("has_extended_layout"@, bool_text(flag_set(f, BLOCK_HAS_EXTENDED_LAYOUT))))
        .push(("over_referenced"@, bool_text(over_referenced(f))))
        .push(("reference_count"@, int_text(reference_count(f) as int)))
}

fn flag_field(d: &mut DebugStruct, name: &str, f: i32, flag: i32)
    requires
        old(d).wf(),
    ensures
        final(d).wf(),
        final(d).name_view() == old(d).name_view(),
        final(d).is_pretty() == old(d).is_pretty(),
        final(d).fields_view() == old(d).fields_view().push((name@, bool_text(flag_set(f, flag)))),
{
    d.field(name, bool_str(f & flag != 0));
}

/// How `Debug` shows a flag word.
pub open spec fn flags_text(f: i32, pretty: bool) -> Seq<char> {
    struct_text("BlockFlags"@, flags_fields(f), true, pretty)
}

/// How a named flag shows: `true` exactly when its bit is set in the word.
pub open spec fn flag_shown(f: i32, bit: i32, name: Seq<char>, pretty: bool) -> Seq<char> {
    field_shown(
        name,
        if f & bit != 0 {
            "true"@
        } else {
            "false"@
        },
        pretty,
    )
}

impl BlockFlags {
    /// The text that `Debug` gives: `{:#?}` if `pretty`, else `{:?}`.
    pub fn debug_string(&self, pretty: bool) -> (s: String)
        ensures
            s@ == flags_text(self.0, pretty),
    {
        let f = self.0;
        let mut d = DebugStruct::new("BlockFlags", pretty);
        let mut value = String::new();
        push_char(&mut value, '"');
        write_bits(&mut value, #[verifier::truncate] (f as u32) as u64, 32);
        push_char(&mut value, '"');
        assert(value@ =~= seq!['"'] + bits_text((f as u32) as nat, 32) + seq!['"']);
        d.field("value", value.as_str());
        flag_field(&mut d, "deallocating", f, BLOCK_DEALLOCATING);
        flag_field(&mut d, "inline_layout_string", f, BLOCK_INLINE_LAYOUT_STRING);
        flag_field(&mut d, "small_descriptor", f, BLOCK_SMALL_DESCRIPTOR);
        flag_field(&mut d, "is_noescape", f, BLOCK_IS_NOESCAPE);
        flag_field(&mut d, "needs_free", f, BLOCK_NEEDS_FREE);
        flag_field(&mut d, "has_copy_dispose", f, BLOCK_HAS_COPY_DISPOSE);
        flag_field(&mut d, "has_ctor", f, BLOCK_HAS_CTOR);
        flag_field(&mut d, "is_gc", f, BLOCK_IS_GC);
        flag_field(&mut d, "is_global", f, BLOCK_IS_GLOBAL);
        flag_field(&mut d, "use_stret", f, BLOCK_USE_STRET);
        flag_field(&mut d, "has_signature", f, BLOCK_HAS_SIGNATURE);
        flag_field(&mut d, "has_extended_layout", f, BLOCK_HAS_EXTENDED_LAYOUT);
        d.field(
            "over_referenced",
            bool_str(f & BLOCK_REFCOUNT_MASK == BLOCK_REFCOUNT_MASK),
        );
        let mut count = String::new();
        write_int(&mut count, ((f & BLOCK_REFCOUNT_MASK) >> 1) as i64);
        d.field("reference_count", count.as_str());
        assert(d.fields_view() == flags_fields(f));
        d.finish_non_exhaustive()
    }
}

// ---------------------------------------------------------------------
// The descriptor
// ---------------------------------------------------------------------

/// What a block descriptor holds: its header and, depending on the
/// block's flags, its helpers and its type encoding.
pub struct DescriptorContents {
    pub reserved: u64,
    pub size: u64,
    /// The copy helper's address, if there is one.
    pub copy: Option<usize>,
    /// The dispose helper's address, if there is one.
    pub dispose: Option<usize>,
    /// The bytes of the type encoding (without the terminating NUL), if
    /// the pointer to it is not null.
    pub encoding: Option<Vec<u8>>,
}

/// The type encoding's bytes, if there is one.
pub open spec fn encoding_view(d: DescriptorContents) -> Option<Seq<u8>> {
    match d.encoding {
        Some(v) => Some(v@),
        None => None,
    }
}

/// A block's descriptor, with the flags that say which parts it has.
#[derive(Clone, Copy)]
pub struct BlockDescriptor<'a> {
    pub has_copy_dispose: bool,
    pub has_signature: bool,
    /// `None` where the descriptor pointer is null.
    pub descriptor: Option<&'a DescriptorContents>,
}

/// The fields that `Debug` shows for a descriptor.
pub open spec fn descriptor_fields(
    has_copy_dispose: bool,
    has_signature: bool,
    d: DescriptorContents,
    pretty: bool,
) -> Seq<(Seq<char>, Seq<char>)> {
    seq![("reserved"@, num_text(d.reserved as nat, 10)), ("size"@, num_text(d.size as nat, 10))]
        + (if has_copy_dispose {
        seq![("copy"@, opt_ptr_text(d.copy, pretty)), ("dispose"@, opt_ptr_text(d.dispose, pretty))]
    } else {
        Seq::empty()
    }) + (if has_signature {
        seq![("encoding"@, encoding_text(encoding_view(d), pretty))]
    } else {
        Seq::empty()
    })
}

/// How `Debug` shows a descriptor: `(null)` for a null pointer.
pub open spec fn descriptor_text(
    has_copy_dispose: bool,
    has_signature: bool,
    d: Option<DescriptorContents>,
    pretty: bool,
) -> Seq<char> {
    match d {
        None => "(null)"@,
        Some(d) => struct_text(
            "BlockDescriptor"@,
            descriptor_fields(has_copy_dispose, has_signature, d, pretty),
            false,
            pretty,
        ),
    }
}

impl<'a> BlockDescriptor<'a> {
    pub open spec fn contents(&self) -> Option<DescriptorContents> {
        match self.descriptor {
            Some(d) => Some(*d),
            None => None,
        }
    }

    /// The text that `Debug` gives: `{:#?}` if `pretty`, else `{:?}`.
    pub fn debug_string(&self, pretty: bool) -> (s: String)
        ensures
            s@ == descriptor_text(
                self.has_copy_dispose,
                self.has_signature,
                self.contents(),
                pretty,
            ),
    {
        let desc = match self.descriptor {
            None => {
                let mut s = String::new();
                s.append("(null)");
                return s;
            },
            Some(desc) => desc,
        };
        let mut d = DebugStruct::new("BlockDescriptor", pretty);
        let mut reserved = String::new();
        write_num(&mut reserved, desc.reserved, 10);
        d.field("reserved", reserved.as_str());
        let mut size = String::new();
        write_num(&mut size, desc.size, 10);
        d.field("size", size.as_str());
        if self.has_copy_dispose {
            let mut copy = String::new();
            write_opt_ptr(&mut copy, desc.copy, pretty);
            d.field("copy", copy.as_str());
            let mut dispose = String::new();
            write_opt_ptr(&mut dispose, desc.dispose, pretty);
            d.field("dispose", dispose.as_str());
        }
        if self.has_signature {
            let mut encoding = String::new();
            write_encoding(&mut encoding, &desc.encoding, pretty);
            d.field("encoding", encoding.as_str());
        }
        assert(d.fields_view() =~= descriptor_fields(
            self.has_copy_dispose,
            self.has_signature,
            *desc,
            pretty,
        ));
        d.finish()
    }
}

// ---------------------------------------------------------------------
// The block
// ---------------------------------------------------------------------

/// The fields of a block's layout.
pub struct Block {
    /// The address of the block's class.
    pub isa: usize,
    pub flags: i32,
    pub reserved: i32,
    /// The address of the invoke function, if the pointer is not null.
    pub invoke: Option<usize>,
    /// What the descriptor holds, or `None` where the pointer is null.
    pub descriptor: Option<DescriptorContents>,
}

/// The fields that `Debug` shows for a block.
pub open spec fn block_fields(b: Block, classes: BlockClasses, pretty: bool) -> Seq<
    (Seq<char>, Seq<char>),
> {
    seq![
        ("isa"@, isa_text(b.isa, classes)),
        ("flags"@, flags_text(b.flags, pretty)),
        ("reserved"@, int_text(b.reserved as int)),
        ("invoke"@, opt_ptr_text(b.invoke, pretty)),
        ("descriptor"@, descriptor_text(
            flag_set(b.flags, BLOCK_HAS_COPY_DISPOSE),
            flag_set(b.flags, BLOCK_HAS_SIGNATURE),
            b.descriptor,
            pretty,
        )),
    ]
}

/// How `Debug` shows a block.
pub open spec fn block_text(b: Block, classes: BlockClasses, pretty: bool) -> Seq<char> {
    struct_text("Block"@, block_fields(b, classes, pretty), true, pretty)
}

impl Block {
    /// The text that `Debug` gives: `{:#?}` if `pretty`, else `{:?}`.
    pub fn debug_string(&self, classes: &BlockClasses, pretty: bool) -> (s: String)
        ensures
            s@ == block_text(*self, *classes, pretty),
    {
        let mut d = DebugStruct::new("Block", pretty);
        let isa = Isa(self.isa).debug_string(classes);
        d.field("isa", isa.as_str());
        let flags = BlockFlags(self.flags).debug_string(pretty);
        d.field("flags", flags.as_str());
        let mut reserved = String::new();
        write_int(&mut reserved, self.reserved as i64);
        d.field("reserved", reserved.as_str());
        let mut invoke = String::new();
        write_opt_ptr(&mut invoke, self.invoke, pretty);
        d.field("invoke", invoke.as_str());
        let descriptor = BlockDescriptor {
            has_copy_dispose: self.flags & BLOCK_HAS_COPY_DISPOSE != 0,
            has_signature: self.flags & BLOCK_HAS_SIGNATURE != 0,
            descriptor: match &self.descriptor {
                Some(c) => Some(c),
                None => None,
            },
        };
        let text = descriptor.debug_string(pretty);
        d.field("descriptor", text.as_str());
        assert(d.fields_view() =~= block_fields(*self, *classes, pretty));
        d.finish_non_exhaustive()
    }
}

} // verus!

verus! {

proof fn lemma_flags_shows_value(f: i32, pretty: bool)
    ensures
        occurs(flags_text(f, pretty), field_shown("value"@, seq!['"'] + bits_text((f as u32) as nat, 32) + seq!['"'], pretty)),
{
    let fs = flags_fields(f);
    assert(fs[0] == ("value"@, seq!['"'] + bits_text((f as u32) as nat, 32) + seq!['"']));
    lemma_struct_shows_field("BlockFlags"@, fs, true, pretty, 0);
}

proof fn lemma_flags_shows_deallocating(f: i32, pretty: bool)
    ensures
        occurs(flags_text(f, pretty), flag_shown(f, 0x0000_0001, "deallocating"@, pretty)),
{
    let fs = flags_fields(f);
    assert(fs[1] == ("deallocating"@, bool_text(f & 0x0000_0001 != 0)));
    lemma_struct_shows_field("BlockFlags"@, fs, true, pretty, 1);
}

proof fn lemma_flags_shows_inline_layout_string(f: i32, pretty: bool)
    ensures
        occurs(flags_text(f, pretty), flag_shown(f, 0x0020_0000, "inline_layout_string"@, pretty)),
{
    let fs = flags_fields(f);
    assert(fs[2] == ("inline_layout_string"@, bool_text(f & 0x0020_0000 != 0)));
    lemma_struct_shows_field("BlockFlags"@, fs, true, pretty, 2);
}

proof fn lemma_flags_shows_small_descriptor(f: i32, pretty: bool)
    ensures
        occurs(flags_text(f, pretty), flag_shown(f, 0x0040_0000, "small_descriptor"@, pretty)),
{
    let fs = flags_fields(f);
    assert(fs[3] == ("small_descriptor"@, bool_text(f & 0x0040_0000 != 0)));
    lemma_struct_shows_field("BlockFlags"@, fs, true, pretty, 3);
}

proof fn lemma_flags_shows_is_noescape(f: i32, pretty: bool)
    ensures
        occurs(flags_text(f, pretty), flag_shown(f, 0x0080_0000, "is_noescape"@, pretty)),
{
    let fs = flags_fields(f);
    assert(fs[4] == ("is_noescape"@, bool_text(f & 0x0080_0000 != 0)));
    lemma_struct_shows_field("BlockFlags"@, fs, true, pretty, 4);
}

proof fn lemma_flags_shows_needs_free(f: i32, pretty: bool)
    ensures
        occurs(flags_text(f, pretty), flag_shown(f, 0x0100_0000, "needs_free"@, pretty)),
{
    let fs = flags_fields(f);
    assert(fs[5] == ("needs_free"@, bool_text(f & 0x0100_0000 != 0)));
    lemma_struct_shows_field("BlockFlags"@, fs, true, pretty, 5);
}

proof fn lemma_flags_shows_has_copy_dispose(f: i32, pretty: bool)
    ensures
        occurs(flags_text(f, pretty), flag_shown(f, 0x0200_0000, "has_copy_dispose"@, pretty)),
{
    let fs = flags_fields(f);
    assert(fs[6] == ("has_copy_dispose"@, bool_text(f & 0x0200_0000 != 0)));
    lemma_struct_shows_field("BlockFlags"@, fs, true, pretty, 6);
}

proof fn lemma_flags_shows_has_ctor(f: i32, pretty: bool)
    ensures
        occurs(flags_text(f, pretty), flag_shown(f, 0x0400_0000, "has_ctor"@, pretty)),
{
    let fs = flags_fields(f);
    assert(fs[7] == ("has_ctor"@, bool_text(f & 0x0400_0000 != 0)));
    lemma_struct_shows_field("BlockFlags"@, fs, true, pretty, 7);
}

proof fn lemma_flags_shows_is_gc(f: i32, pretty: bool)
    ensures
        occurs(flags_text(f, pretty), flag_shown(f, 0x0800_0000, "is_gc"@, pretty)),
{
    let fs = flags_fields(f);
    assert(fs[8] == ("is_gc"@, bool_text(f & 0x0800_0000 != 0)));
    lemma_struct_shows_field("BlockFlags"@, fs, true, pretty, 8);
}

proof fn lemma_flags_shows_is_global(f: i32, pretty: bool)
    ensures
        occurs(flags_text(f, pretty), flag_shown(f, 0x1000_0000, "is_global"@, pretty)),
{
    let fs = flags_fields(f);
    assert(fs[9] == ("is_global"@, bool_text(f & 0x1000_0000 != 0)));
    lemma_struct_shows_field("BlockFlags"@, fs, true, pretty, 9);
}

proof fn lemma_flags_shows_use_stret(f: i32, pretty: bool)
    ensures
        occurs(flags_text(f, pretty), flag_shown(f, 0x2000_0000, "use_stret"@, pretty)),
{
    let fs = flags_fields(f);
    assert(fs[10] == ("use_stret"@, bool_text(f & 0x2000_0000 != 0)));
    lemma_struct_shows_field("BlockFlags"@, fs, true, pretty, 10);
}

proof fn lemma_flags_shows_has_signature(f: i32, pretty: bool)
    ensures
        occurs(flags_text(f, pretty), flag_shown(f, 0x4000_0000, "has_signature"@, pretty)),
{
    let fs = flags_fields(f);
    assert(fs[11] == ("has_signature"@, bool_text(f & 0x4000_0000 != 0)));
    lemma_struct_shows_field("BlockFlags"@, fs, true, pretty, 11);
}

proof fn lemma_flags_shows_has_extended_layout(f: i32, pretty: bool)
    ensures
        occurs(flags_text(f, pretty), flag_shown(f, -0x8000_0000i32, "has_extended_layout"@, pretty)),
{
    let fs = flags_fields(f);
    assert(fs[12] == ("has_extended_layout"@, bool_text(f & -0x8000_0000i32 != 0)));
    lemma_struct_shows_field("BlockFlags"@, fs, true, pretty, 12);
}

proof fn lemma_flags_shows_over_referenced(f: i32, pretty: bool)
    ensures
        occurs(flags_text(f, pretty), field_shown("over_referenced"@, bool_text(f & 0xfffe == 0xfffe), pretty)),
{
    let fs = flags_fields(f);
    assert(fs[13] == ("over_referenced"@, bool_text(f & 0xfffe == 0xfffe)));
    lemma_struct_shows_field("BlockFlags"@, fs, true, pretty, 13);
}

proof fn lemma_flags_shows_reference_count(f: i32, pretty: bool)
    ensures
        occurs(flags_text(f, pretty), field_shown("reference_count"@, int_text(((f & 0xfffe) >> 1) as int), pretty)),
{
    let fs = flags_fields(f);
    assert(fs[14] == ("reference_count"@, int_text(((f & 0xfffe) >> 1) as int)));
    lemma_struct_shows_field("BlockFlags"@, fs, true, pretty, 14);
}

/// The text of a flag word shows the word in 32 binary digits, each named
/// flag as `true` exactly when its bit is set, whether the reference count
/// field is full (`true` exactly when all its bits are set), and the
/// reference count, the field's value shifted right by one.
pub proof fn law_flags_text_fields(f: i32, pretty: bool)
    ensures
        occurs(flags_text(f, pretty), field_shown("value"@, seq!['"'] + bits_text((f as u32) as nat, 32) + seq!['"'], pretty)),
        occurs(flags_text(f, pretty), flag_shown(f, 0x0000_0001, "deallocating"@, pretty)),
        occurs(flags_text(f, pretty), flag_shown(f, 0x0020_0000, "inline_layout_string"@, pretty)),
        occurs(flags_text(f, pretty), flag_shown(f, 0x0040_0000, "small_descriptor"@, pretty)),
        occurs(flags_text(f, pretty), flag_shown(f, 0x0080_0000, "is_noescape"@, pretty)),
        occurs(flags_text(f, pretty), flag_shown(f, 0x0100_0000, "needs_free"@, pretty)),
        occurs(flags_text(f, pretty), flag_shown(f, 0x0200_0000, "has_copy_dispose"@, pretty)),
        occurs(flags_text(f, pretty), flag_shown(f, 0x0400_0000, "has_ctor"@, pretty)),
        occurs(flags_text(f, pretty), flag_shown(f, 0x0800_0000, "is_gc"@, pretty)),
        occurs(flags_text(f, pretty), flag_shown(f, 0x1000_0000, "is_global"@, pretty)),
        occurs(flags_text(f, pretty), flag_shown(f, 0x2000_0000, "use_stret"@, pretty)),
        occurs(flags_text(f, pretty), flag_shown(f, 0x4000_0000, "has_signature"@, pretty)),
        occurs(flags_text(f, pretty), flag_shown(f, -0x8000_0000i32, "has_extended_layout"@, pretty)),
        occurs(
            flags_text(f, pretty),
            field_shown(
                "over_referenced"@,
                if f & 0xfffe == 0xfffe {
                    "true"@
                } else {
                    "false"@
                },
                pretty,
            ),
        ),
        occurs(
            flags_text(f, pretty),
            field_shown("reference_count"@, int_text(((f & 0xfffe) >> 1) as int), pretty),
        ),
{
    lemma_flags_shows_value(f, pretty);
    lemma_flags_shows_deallocating(f, pretty);
    lemma_flags_shows_inline_layout_string(f, pretty);
    lemma_flags_shows_small_descriptor(f, pretty);
    lemma_flags_shows_is_noescape(f, pretty);
    lemma_flags_shows_needs_free(f, pretty);
    lemma_flags_shows_has_copy_dispose(f, pretty);
    lemma_flags_shows_has_ctor(f, pretty);
    lemma_flags_shows_is_gc(f, pretty);
    lemma_flags_shows_is_global(f, pretty);
    lemma_flags_shows_use_stret(f, pretty);
    lemma_flags_shows_has_signature(f, pretty);
    lemma_flags_shows_has_extended_layout(f, pretty);
    lemma_flags_shows_over_referenced(f, pretty);
    lemma_flags_shows_reference_count(f, pretty);
}

} // verus!

verus! {

proof fn lemma_block_shows(b: Block, classes: BlockClasses, pretty: bool, i: int)
    requires
        0 <= i < 5,
    ensures
        occurs(
            block_text(b, classes, pretty),
            field_shown(
                block_fields(b, classes, pretty)[i].0,
                block_fields(b, classes, pretty)[i].1,
                pretty,
            ),
        ),
{
    lemma_struct_shows_field("Block"@, block_fields(b, classes, pretty), true, pretty, i);
}

/// The text of a block shows its class, its flag word, its reserved
/// word, its invoke function, and its descriptor read with the copy and
/// dispose helpers present exactly when bit 25 of the flags is set and the
/// type encoding present exactly when bit 30 is set; nested values are
/// written in the same form (compact or pretty) as the whole.
pub proof fn law_block_text_fields(b: Block, classes: BlockClasses, pretty: bool)
    ensures
        occurs(block_text(b, classes, pretty), field_shown("isa"@, isa_text(b.isa, classes), pretty)),
        occurs(
            block_text(b, classes, pretty),
            field_shown("flags"@, flags_text(b.flags, pretty), pretty),
        ),
        occurs(
            block_text(b, classes, pretty),
            field_shown("reserved"@, int_text(b.reserved as int), pretty),
        ),
        occurs(
            block_text(b, classes, pretty),
            field_shown("invoke"@, opt_ptr_text(b.invoke, pretty), pretty),
        ),
        occurs(
            block_text(b, classes, pretty),
            field_shown(
                "descriptor"@,
                descriptor_text(
                    b.flags & 0x0200_0000 != 0,
                    b.flags & 0x4000_0000 != 0,
                    b.descriptor,
                    pretty,
                ),
                pretty,
            ),
        ),
{
    lemma_block_shows(b, classes, pretty, 0);
    lemma_block_shows(b, classes, pretty, 1);
    lemma_block_shows(b, classes, pretty, 2);
    lemma_block_shows(b, classes, pretty, 3);
    lemma_block_shows(b, classes, pretty, 4);
}

proof fn lemma_descriptor_shows(
    has_copy_dispose: bool,
    has_signature: bool,
    d: DescriptorContents,
    pretty: bool,
    i: int,
)
    requires
        0 <= i < descriptor_fields(has_copy_dispose, has_signature, d, pretty).len(),
    ensures
        occurs(
            descriptor_text(has_copy_dispose, has_signature, Some(d), pretty),
            field_shown(
                descriptor_fields(has_copy_dispose, has_signature, d, pretty)[i].0,
                descriptor_fields(has_copy_dispose, has_signature, d, pretty)[i].1,
                pretty,
            ),
        ),
{
    lemma_struct_shows_field(
        "BlockDescriptor"@,
        descriptor_fields(has_copy_dispose, has_signature, d, pretty),
        false,
        pretty,
        i,
    );
}

/// The compact text of a present descriptor, entry by entry: `reserved`
/// and `size` in decimal, then the `copy` and `dispose` helpers if the
/// block has them, then the type encoding if the block has one.
pub open spec fn compact_descriptor(
    has_copy_dispose: bool,
    has_signature: bool,
    d: DescriptorContents,
) -> Seq<char> {
    "BlockDescriptor"@ + " { "@ + "reserved"@ + ": "@ + num_text(d.reserved as nat, 10) + ", "@
        + "size"@ + ": "@ + num_text(d.size as nat, 10) + (if has_copy_dispose {
        ", "@ + "copy"@ + ": "@ + opt_ptr_text(d.copy, false) + ", "@ + "dispose"@ + ": "@
            + opt_ptr_text(d.dispose, false)
    } else {
        Seq::empty()
    }) + (if has_signature {
        ", "@ + "encoding"@ + ": "@ + encoding_text(encoding_view(d), false)
    } else {
        Seq::empty()
    }) + " }"@
}

proof fn lemma_descriptor_entries(
    has_copy_dispose: bool,
    has_signature: bool,
    d: DescriptorContents,
    pretty: bool,
)
    ensures
        occurs(
            descriptor_text(has_copy_dispose, has_signature, Some(d), pretty),
            field_shown("reserved"@, num_text(d.reserved as nat, 10), pretty),
        ),
        occurs(
            descriptor_text(has_copy_dispose, has_signature, Some(d), pretty),
            field_shown("size"@, num_text(d.size as nat, 10), pretty),
        ),
        has_copy_dispose ==> occurs(
            descriptor_text(has_copy_dispose, has_signature, Some(d), pretty),
            field_shown("copy"@, opt_ptr_text(d.copy, pretty), pretty),
        ),
        has_copy_dispose ==> occurs(
            descriptor_text(has_copy_dispose, has_signature, Some(d), pretty),
            field_shown("dispose"@, opt_ptr_text(d.dispose, pretty), pretty),
        ),
        has_signature ==> occurs(
            descriptor_text(has_copy_dispose, has_signature, Some(d), pretty),
            field_shown("encoding"@, encoding_text(encoding_view(d), pretty), pretty),
        ),
{
    let fs = descriptor_fields(has_copy_dispose, has_signature, d, pretty);
    lemma_descriptor_shows(has_copy_dispose, has_signature, d, pretty, 0);
    lemma_descriptor_shows(has_copy_dispose, has_signature, d, pretty, 1);
    if has_copy_dispose {
        lemma_descriptor_shows(has_copy_dispose, has_signature, d, pretty, 2);
        lemma_descriptor_shows(has_copy_dispose, has_signature, d, pretty, 3);
    }
    if has_signature {
        let k = if has_copy_dispose {
            4int
        } else {
            2int
        };
        assert(fs[k] == ("encoding"@, encoding_text(encoding_view(d), pretty)));
        lemma_descriptor_shows(has_copy_dispose, has_signature, d, pretty, k);
    }
}

/// Five `key: value` entries joined by `s`, inside `n + o` and `cl`,
/// regroup as the compact descriptor text groups them.
proof fn lemma_regroup_five_entries(
    n: Seq<char>,
    o: Seq<char>,
    cl: Seq<char>,
    s: Seq<char>,
    col: Seq<char>,
    k1: Seq<char>,
    v1: Seq<char>,
    k2: Seq<char>,
    v2: Seq<char>,
    k3: Seq<char>,
    v3: Seq<char>,
    k4: Seq<char>,
    v4: Seq<char>,
    k5: Seq<char>,
    v5: Seq<char>,
)
    ensures
        n + o + ((k1 + col + v1) + s + (k2 + col + v2) + s + (k3 + col + v3) + s + (k4 + col
            + v4) + s + (k5 + col + v5)) + cl == n + o + k1 + col + v1 + s + k2 + col + v2 + (s
            + k3 + col + v3 + s + k4 + col + v4) + (s + k5 + col + v5) + cl,
{
    let e1 = k1 + col + v1;
    let e2 = k2 + col + v2;
    let e3 = k3 + col + v3;
    let e4 = k4 + col + v4;
    let e5 = k5 + col + v5;
    let mid = s + k3 + col + v3 + s + k4 + col + v4;
    let tail = s + k5 + col + v5;
    assert(mid =~= s + e3 + s + e4);
    assert(tail =~= s + e5);
    assert(n + o + k1 + col + v1 + s + k2 + col + v2 =~= n + o + (e1 + s + e2));
    assert(n + o + (e1 + s + e2 + s + e3 + s + e4 + s + e5) + cl =~= n + o + (e1 + s + e2) + (s
        + e3 + s + e4) + (s + e5) + cl);
}

/// Four `key: value` entries joined by `s`, inside `n + o` and `cl`,
/// regroup as the compact descriptor text groups them.
proof fn lemma_regroup_four_entries(
    n: Seq<char>,
    o: Seq<char>,
    cl: Seq<char>,
    s: Seq<char>,
    col: Seq<char>,
    k1: Seq<char>,
    v1: Seq<char>,
    k2: Seq<char>,
    v2: Seq<char>,
    k3: Seq<char>,
    v3: Seq<char>,
    k4: Seq<char>,
    v4: Seq<char>,
)
    ensures
        n + o + ((k1 + col + v1) + s + (k2 + col + v2) + s + (k3 + col + v3) + s + (k4 + col
            + v4)) + cl == n + o + k1 + col + v1 + s + k2 + col + v2 + (s + k3 + col + v3 + s + k4
            + col + v4) + Seq::<char>::empty() + cl,
{
    let e1 = k1 + col + v1;
    let e2 = k2 + col + v2;
    let e3 = k3 + col + v3;
    let e4 = k4 + col + v4;
    let mid = s + k3 + col + v3 + s + k4 + col + v4;
    assert(mid =~= s + e3 + s + e4);
    assert(n + o + k1 + col + v1 + s + k2 + col + v2 =~= n + o + (e1 + s + e2));
    assert(n + o + (e1 + s + e2) + (s + e3 + s + e4) + Seq::<char>::empty() =~= n + o + (e1 + s
        + e2) + (s + e3 + s + e4));
    assert(n + o + (e1 + s + e2 + s + e3 + s + e4) + cl =~= n + o + (e1 + s + e2) + (s + e3 + s
        + e4) + cl);
}

proof fn lemma_compact_descriptor_cd_sig(has_copy_dispose: bool, has_signature: bool, d: DescriptorContents)
    requires
        has_copy_dispose == true,
        has_signature == true,
    ensures
        descriptor_text(has_copy_dispose, has_signature, Some(d), false) == compact_descriptor(
            has_copy_dispose,
            has_signature,
            d,
        ),
{
    let cs = descriptor_fields(has_copy_dispose, has_signature, d, false);
    let r = ("reserved"@, num_text(d.reserved as nat, 10));
    let z = ("size"@, num_text(d.size as nat, 10));
    let base = seq![r, z];
    assert(base.drop_last() =~= seq![r]);
    assert(field_list(seq![r]) == field_entry(r));
    assert(field_list(base) == field_entry(r) + ", "@ + field_entry(z));
    let c = ("copy"@, opt_ptr_text(d.copy, false));
    let x = ("dispose"@, opt_ptr_text(d.dispose, false));
    let b3 = base.push(c);
    let b4 = b3.push(x);
    assert(b3.drop_last() == base);
    assert(b4.drop_last() == b3);
    assert(field_list(b3) == field_list(base) + ", "@ + field_entry(c));
    assert(field_list(b4) == field_list(b3) + ", "@ + field_entry(x));
    let e = ("encoding"@, encoding_text(encoding_view(d), false));
    let b5 = b4.push(e);
    assert(b5.drop_last() == b4);
    assert(field_list(b5) == field_list(b4) + ", "@ + field_entry(e));
    assert(cs =~= b5);
    lemma_regroup_five_entries(
        "BlockDescriptor"@,
        " { "@,
        " }"@,
        ", "@,
        ": "@,
        r.0,
        r.1,
        z.0,
        z.1,
        c.0,
        c.1,
        x.0,
        x.1,
        e.0,
        e.1,
    );
}

proof fn lemma_compact_descriptor_cd_nosig(has_copy_dispose: bool, has_signature: bool, d: DescriptorContents)
    requires
        has_copy_dispose == true,
        has_signature == false,
    ensures
        descriptor_text(has_copy_dispose, has_signature, Some(d), false) == compact_descriptor(
            has_copy_dispose,
            has_signature,
            d,
        ),
{
    let cs = descriptor_fields(has_copy_dispose, has_signature, d, false);
    let r = ("reserved"@, num_text(d.reserved as nat, 10));
    let z = ("size"@, num_text(d.size as nat, 10));
    let base = seq![r, z];
    assert(base.drop_last() =~= seq![r]);
    assert(field_list(seq![r]) == field_entry(r));
    assert(field_list(base) == field_entry(r) + ", "@ + field_entry(z));
    let c = ("copy"@, opt_ptr_text(d.copy, false));
    let x = ("dispose"@, opt_ptr_text(d.dispose, false));
    let b3 = base.push(c);
    let b4 = b3.push(x);
    assert(b3.drop_last() == base);
    assert(b4.drop_last() == b3);
    assert(field_list(b3) == field_list(base) + ", "@ + field_entry(c));
    assert(field_list(b4) == field_list(b3) + ", "@ + field_entry(x));
    assert(cs =~= b4);
    lemma_regroup_four_entries(
        "BlockDescriptor"@,
        " { "@,
        " }"@,
        ", "@,
        ": "@,
        r.0,
        r.1,
        z.0,
        z.1,
        c.0,
        c.1,
        x.0,
        x.1,
    );
}

proof fn lemma_compact_descriptor_nocd_sig(has_copy_dispose: bool, has_signature: bool, d: DescriptorContents)
    requires
        has_copy_dispose == false,
        has_signature == true,
    ensures
        descriptor_text(has_copy_dispose, has_signature, Some(d), false) == compact_descriptor(
            has_copy_dispose,
            has_signature,
            d,
        ),
{
    let cs = descriptor_fields(has_copy_dispose, has_signature, d, false);
    let r = ("reserved"@, num_text(d.reserved as nat, 10));
    let z = ("size"@, num_text(d.size as nat, 10));
    let base = seq![r, z];
    assert(base.drop_last() =~= seq![r]);
    assert(field_list(seq![r]) == field_entry(r));
    assert(field_list(base) == field_entry(r) + ", "@ + field_entry(z));
    let e = ("encoding"@, encoding_text(encoding_view(d), false));
    let b5 = base.push(e);
    assert(b5.drop_last() == base);
    assert(field_list(b5) == field_list(base) + ", "@ + field_entry(e));
    assert(cs =~= b5);
    assert(descriptor_text(has_copy_dispose, has_signature, Some(d), false) =~= compact_descriptor(
        has_copy_dispose,
        has_signature,
        d,
    ));
}

proof fn lemma_compact_descriptor_nocd_nosig(has_copy_dispose: bool, has_signature: bool, d: DescriptorContents)
    requires
        has_copy_dispose == false,
        has_signature == false,
    ensures
        descriptor_text(has_copy_dispose, has_signature, Some(d), false) == compact_descriptor(
            has_copy_dispose,
            has_signature,
            d,
        ),
{
    let cs = descriptor_fields(has_copy_dispose, has_signature, d, false);
    let r = ("reserved"@, num_text(d.reserved as nat, 10));
    let z = ("size"@, num_text(d.size as nat, 10));
    let base = seq![r, z];
    assert(base.drop_last() =~= seq![r]);
    assert(field_list(seq![r]) == field_entry(r));
    assert(field_list(base) == field_entry(r) + ", "@ + field_entry(z));
    assert(cs =~= base);
    assert(descriptor_text(has_copy_dispose, has_signature, Some(d), false) =~= compact_descriptor(
        has_copy_dispose,
        has_signature,
        d,
    ));
}

proof fn lemma_compact_descriptor(has_copy_dispose: bool, has_signature: bool, d: DescriptorContents)
    ensures
        descriptor_text(has_copy_dispose, has_signature, Some(d), false) == compact_descriptor(
            has_copy_dispose,
            has_signature,
            d,
        ),
{
    if has_copy_dispose {
        if has_signature {
            lemma_compact_descriptor_cd_sig(has_copy_dispose, has_signature, d);
        } else {
            lemma_compact_descriptor_cd_nosig(has_copy_dispose, has_signature, d);
        }
    } else {
        if has_signature {
            lemma_compact_descriptor_nocd_sig(has_copy_dispose, has_signature, d);
        } else {
            lemma_compact_descriptor_nocd_nosig(has_copy_dispose, has_signature, d);
        }
    }
}

/// The text of a descriptor that is present shows its reserved word and
/// size in decimal; where the block has copy and dispose helpers, both
/// helpers, each written in the same form (compact or pretty) as the
/// whole; and where the block has a type encoding, the encoding. In the
/// compact form the text is exactly these entries in this order. A null
/// descriptor shows `(null)`.
pub proof fn law_descriptor_text(
    has_copy_dispose: bool,
    has_signature: bool,
    d: DescriptorContents,
    pretty: bool,
)
    ensures
        occurs(
            descriptor_text(has_copy_dispose, has_signature, Some(d), pretty),
            field_shown("reserved"@, num_text(d.reserved as nat, 10), pretty),
        ),
        occurs(
            descriptor_text(has_copy_dispose, has_signature, Some(d), pretty),
            field_shown("size"@, num_text(d.size as nat, 10), pretty),
        ),
        has_copy_dispose ==> occurs(
            descriptor_text(has_copy_dispose, has_signature, Some(d), pretty),
            field_shown("copy"@, opt_ptr_text(d.copy, pretty), pretty),
        ),
        has_copy_dispose ==> occurs(
            descriptor_text(has_copy_dispose, has_signature, Some(d), pretty),
            field_shown("dispose"@, opt_ptr_text(d.dispose, pretty), pretty),
        ),
        has_signature ==> occurs(
            descriptor_text(has_copy_dispose, has_signature, Some(d), pretty),
            field_shown("encoding"@, encoding_text(encoding_view(d), pretty), pretty),
        ),
        descriptor_text(has_copy_dispose, has_signature, Some(d), false) == compact_descriptor(has_copy_dispose, has_signature, d),
        descriptor_text(has_copy_dispose, has_signature, None, pretty) == "(null)"@,
{
    lemma_descriptor_entries(has_copy_dispose, has_signature, d, pretty);
    lemma_compact_descriptor(has_copy_dispose, has_signature, d);
}

} // verus!
