use objc2_tools::library::{prepare_for_docs, Example, File, Library, LibraryData, Stmt};
use objc2_tools::module_text::{feature_list, module_name_of};

fn s(x: &str) -> String {
    x.to_string()
}

fn stmt(declared: &[&str], features: &[Option<&str>]) -> Stmt {
    Stmt {
        declared_types: declared.iter().map(|t| s(t)).collect(),
        required_features: features.iter().map(|f| f.map(s)).collect(),
    }
}

fn file(stmts: Vec<Stmt>, source: &str) -> File {
    File { stmts, source: s(source) }
}

fn foundation() -> Library {
    let mut lib = Library::new("Foundation", &LibraryData::default());
    lib.insert_file(
        s("NSString"),
        file(
            vec![
                stmt(
                    &["NSString", "_NSStringPrivate"],
                    &[Some("NSString"), None, Some("NSObject"), Some("NSString")],
                ),
                stmt(&["_Hidden"], &[Some("Unused")]),
            ],
            "// NSString\n",
        ),
    );
    lib.insert_file(s("NSArray+Ext"), file(vec![stmt(&["NSArray"], &[])], "// NSArray\n"));
    lib
}

#[test]
fn module_text_of_a_plain_library() {
    let expected = "\
// This file has been automatically generated by `objc2`'s `header-translator`.
// DO NOT EDIT

//! # Bindings to the `Foundation` framework



#[cfg_attr(feature = \"apple\", link(name = \"Foundation\", kind = \"framework\"))]
extern \"C\" {}

#[path = \"NSArray_Ext.rs\"]
mod __NSArray_Ext;
#[path = \"NSString.rs\"]
mod __NSString;

pub use self::__NSArray_Ext::{NSArray
};
#[cfg(all(feature = \"NSObject\",feature = \"NSString\"))]
pub use self::__NSString::{NSString
};
";
    assert_eq!(foundation().to_string(), expected);
}

#[test]
fn module_text_with_every_option() {
    let data = LibraryData {
        name: Some(s("AppKitX")),
        extra_docs: s("  Hello\nWorld  "),
        has_additions: true,
        has_fixes: true,
        examples: vec![
            Example { name: s("first"), description: s("First example") },
            Example { name: s("second"), description: s("Second") },
        ],
        gnustep_library: Some(s("gnustep-gui")),
    };
    let mut lib = Library::new("AppKit", &data);
    lib.insert_file(
        s("NSView"),
        file(vec![stmt(&["NSView", "NSViewLayer", "_X", "NSViewExt"], &[Some("NSView")])], ""),
    );
    let expected = "\
// This file has been automatically generated by `objc2`'s `header-translator`.
// DO NOT EDIT

//! # Bindings to the `AppKitX` framework
//!
//! Hello
//! World.
//!
//!
//! ## Examples
//!
//! First example.
//!
//! ```ignore
#![doc = include_str!(\"../../../examples/first.rs\")]
//! ```
//!
//! Second.
//!
//! ```ignore
#![doc = include_str!(\"../../../examples/second.rs\")]
//! ```
#![doc(alias = \"AppKit\")]

#[path = \"../../additions/AppKitX/mod.rs\"]
mod additions;
pub use self::additions::*;

#[path = \"../../fixes/AppKitX/mod.rs\"]
mod fixes;
pub use self::fixes::*;

#[cfg_attr(feature = \"apple\", link(name = \"AppKit\", kind = \"framework\"))]
#[cfg_attr(feature = \"gnustep-1-7\", link(name = \"gnustep-gui\", kind = \"dylib\"))]
extern \"C\" {}

#[path = \"NSView.rs\"]
mod __NSView;

#[cfg(feature = \"NSView\")]
pub use self::__NSView::{NSView
, NSViewLayer
, NSViewExt
};
";
    assert_eq!(lib.to_string(), expected);
}

#[test]
fn single_example_is_not_plural() {
    let data = LibraryData {
        examples: vec![Example { name: s("demo"), description: s("Demo") }],
        ..LibraryData::default()
    };
    let text = Library::new("Kit", &data).to_string();
    assert!(text.contains("//! ## Example\n//!\n//! Demo.\n"));
    assert!(!text.contains("## Examples"));
    assert!(!text.contains("doc(alias"));
}

#[test]
fn files_are_kept_in_name_order() {
    let lib = foundation();
    let names: Vec<&str> = lib.files().iter().map(|(n, _)| n.as_str()).collect();
    assert_eq!(names, vec!["NSArray+Ext", "NSString"]);
}

#[test]
fn insert_replaces_a_file_under_the_same_name() {
    let mut lib = foundation();
    let prev = lib.insert_file(s("NSString"), file(vec![], "// new\n"));
    assert_eq!(prev.map(|f| f.source), Some(s("// NSString\n")));
    assert_eq!(lib.files().len(), 2);
    assert_eq!(lib.files()[1].1.source, "// new\n");
    let fresh = lib.insert_file(s("AAA"), file(vec![], ""));
    assert!(fresh.is_none());
    assert_eq!(lib.files().len(), 3);
    assert_eq!(lib.files()[0].0, "AAA");
}

#[test]
fn insertion_order_does_not_change_the_text() {
    let mut other = Library::new("Foundation", &LibraryData::default());
    other.insert_file(s("NSArray+Ext"), file(vec![stmt(&["NSArray"], &[])], "// NSArray\n"));
    other.insert_file(
        s("NSString"),
        file(
            vec![
                stmt(
                    &["NSString", "_NSStringPrivate"],
                    &[Some("NSString"), None, Some("NSObject"), Some("NSString")],
                ),
                stmt(&["_Hidden"], &[Some("Unused")]),
            ],
            "// NSString\n",
        ),
    );
    assert!(other.same_files(&foundation()));
    assert_eq!(other.to_string(), foundation().to_string());
    other.compare(&foundation());
}

#[test]
fn different_files_are_told_apart() {
    let mut other = foundation();
    other.insert_file(s("NSString"), file(vec![], "// NSString\n"));
    assert!(!other.same_files(&foundation()));
    assert!(!Library::default().same_files(&foundation()));
    assert!(Library::default().same_files(&Library::new("X", &LibraryData::default())));
}

#[test]
fn docs_are_trimmed_and_continued() {
    assert_eq!(prepare_for_docs("  one\ntwo\n\nthree \t\n"), "one\n//! two\n//! \n//! three");
    assert_eq!(prepare_for_docs(" \u{3000}\u{a0}x\u{2029}"), "x");
    assert_eq!(prepare_for_docs(""), "");
}

#[test]
fn module_names_replace_plus() {
    assert_eq!(module_name_of("NSObject+NSKeyValueCoding"), "NSObject_NSKeyValueCoding");
    assert_eq!(module_name_of("a++b"), "a__b");
}

#[test]
fn features_are_sorted_without_repeats() {
    let req = vec![Some(s("b")), None, Some(s("a")), Some(s("b")), Some(s("a!"))];
    let list = feature_list(&req);
    assert_eq!(
        list,
        vec![s("feature = \"a!\""), s("feature = \"a\""), s("feature = \"b\"")]
    );
    assert!(feature_list(&vec![None, None]).is_empty());
}

#[test]
fn single_feature_uses_plain_cfg() {
    let mut lib = Library::new("K", &LibraryData::default());
    lib.insert_file(s("F"), file(vec![stmt(&["T"], &[Some("X"), Some("X")])], ""));
    assert!(lib.to_string().ends_with("#[cfg(feature = \"X\")]\npub use self::__F::{T\n};\n"));
}

#[test]
fn docs_round_trip_gives_back_trimmed_text() {
    for text in ["  one\ntwo\n\nthree \t\n", "a\n//! b", "plain", "", "\n\nx\n\n"] {
        assert_eq!(prepare_for_docs(text).replace("\n//! ", "\n"), text.trim());
    }
}
