//! The text of a library's module file: its header and documentation,
//! the attributes that link the framework, one module per file, and the
//! re-exports of the types that each file declares.
use vstd::prelude::*;

use crate::library::{
    DataView, Example, ExampleView, File, FileView, LibraryData, LibraryView, Stmt, StmtView,
    entry_view, opt_view,
};
use crate::sorted::{insert_sorted, lemma_sorted_list_of, sorted_list, strictly_sorted, strs};
use crate::text::{
    chars_of, lemma_occurs_trans, lemma_occurs_within, occurs, replace_char, trim, write_replaced,
};

verus! {

// ---------------------------------------------------------------------
// Pieces of text
// ---------------------------------------------------------------------

/// Documentation text made fit for a `//!` comment: trimmed, and with each
/// line break followed by the comment marker.
pub open spec fn docs_text(s: Seq<char>) -> Seq<char> {
    replace_char(trim(s), '\n', "\n//! "@)
}

/// A file name as a module name: `+` becomes `_`.
pub open spec fn module_name(name: Seq<char>) -> Seq<char> {
    replace_char(name, '+', "_"@)
}

/// The name the bindings are documented under.
pub open spec fn display_name(v: LibraryView) -> Seq<char> {
    match v.data.name {
        Some(n) => n,
        None => v.link_name,
    }
}

pub open spec fn header_text(name: Seq<char>) -> Seq<char> {
    "// This file has been automatically generated by `objc2`'s `header-translator`.\n"@
        + "// DO NOT EDIT\n"@ + "\n"@ + "//! # Bindings to the `"@ + name + "` framework\n"@
}

/// A documentation paragraph as one `//!` line ending in a full stop.
pub open spec fn docs_line(s: Seq<char>) -> Seq<char> {
    "//! "@ + docs_text(s) + ".\n"@
}

pub open spec fn extra_docs_text(d: DataView) -> Seq<char> {
    if d.extra_docs.len() == 0 {
        Seq::empty()
    } else {
        "//!\n"@ + docs_line(d.extra_docs)
    }
}

pub open spec fn example_text(e: ExampleView) -> Seq<char> {
    "//!\n"@ + docs_line(e.description) + "//!\n"@ + "//! ```ignore\n"@
        + "#![doc = include_str!(\"../../../examples/"@ + e.name + ".rs\")]\n"@ + "//! ```\n"@
}

pub open spec fn example_list_text(es: Seq<ExampleView>) -> Seq<char>
    decreases es.len(),
{
    if es.len() == 0 {
        Seq::empty()
    } else {
        example_list_text(es.drop_last()) + example_text(es.last())
    }
}

pub open spec fn examples_text(es: Seq<ExampleView>) -> Seq<char> {
    if es.len() == 0 {
        Seq::empty()
    } else {
        "//!\n"@ + "//!\n"@ + "//! ## Example"@ + (if es.len() > 1 {
            "s"@
        } else {
            Seq::empty()
        }) + "\n"@ + example_list_text(es)
    }
}

pub open spec fn alias_text(v: LibraryView) -> Seq<char> {
    if v.data.name is Some {
        "#![doc(alias = \""@ + v.link_name + "\")]\n"@
    } else {
        Seq::empty()
    }
}

pub open spec fn additions_text(d: DataView, name: Seq<char>) -> Seq<char> {
    if d.has_additions {
        "#[path = \"../../additions/"@ + name + "/mod.rs\"]\n"@ + "mod additions;\n"@
            + "pub use self::additions::*;\n"@
    } else {
        Seq::empty()
    }
}

pub open spec fn fixes_text(d: DataView, name: Seq<char>) -> Seq<char> {
    if d.has_fixes {
        "#[path = \"../../fixes/"@ + name + "/mod.rs\"]\n"@ + "mod fixes;\n"@
            + "pub use self::fixes::*;\n"@
    } else {
        Seq::empty()
    }
}

pub open spec fn gnustep_text(g: Option<Seq<char>>) -> Seq<char> {
    match g {
        Some(g) => "#[cfg_attr(feature = \"gnustep-1-7\", link(name = \""@ + g
            + "\", kind = \"dylib\"))]\n"@,
        None => Seq::empty(),
    }
}

pub open spec fn link_text(v: LibraryView) -> Seq<char> {
    "#[cfg_attr(feature = \"apple\", link(name = \""@ + v.link_name
        + "\", kind = \"framework\"))]\n"@ + gnustep_text(v.data.gnustep_library)
        + "extern \"C\" {}\n"@
}

pub open spec fn mod_text(name: Seq<char>) -> Seq<char> {
    "#[path = \""@ + module_name(name) + ".rs\"]\n"@ + "mod __"@ + module_name(name) + ";\n"@
}

pub open spec fn mods_text(files: Seq<(Seq<char>, FileView)>) -> Seq<char>
    decreases files.len(),
{
    if files.len() == 0 {
        Seq::empty()
    } else {
        mods_text(files.drop_last()) + mod_text(files.last().0)
    }
}

/// Names that start with `_` are not re-exported.
pub open spec fn hidden(name: Seq<char>) -> bool {
    name.len() > 0 && name[0] == '_'
}

/// The declared types that are re-exported, in order.
pub open spec fn visible(types: Seq<Seq<char>>) -> Seq<Seq<char>>
    decreases types.len(),
{
    if types.len() == 0 {
        Seq::empty()
    } else {
        visible(types.drop_last()) + if hidden(types.last()) {
            Seq::empty()
        } else {
            seq![types.last()]
        }
    }
}

/// A feature as a `cfg` predicate.
pub open spec fn feature_attr(f: Seq<char>) -> Seq<char> {
    "feature = \""@ + f + "\""@
}

/// The `cfg` predicates of the features that the required types need.
pub open spec fn feature_attrs(req: Seq<Option<Seq<char>>>) -> Set<Seq<char>> {
    Set::new(
        |a: Seq<char>|
            exists|i: int|
                0 <= i < req.len() && #[trigger] req[i] is Some && a == feature_attr(req[i]->0),
    )
}

/// Strings joined by `,`.
pub open spec fn join_commas(fs: Seq<Seq<char>>) -> Seq<char>
    decreases fs.len(),
{
    if fs.len() == 0 {
        Seq::empty()
    } else if fs.len() == 1 {
        fs[0]
    } else {
        join_commas(fs.drop_last()) + ","@ + fs.last()
    }
}

/// The `cfg` attribute for the given predicates, none where there are none.
pub open spec fn cfg_text(fs: Seq<Seq<char>>) -> Seq<char> {
    if fs.len() == 0 {
        Seq::empty()
    } else if fs.len() == 1 {
        "#[cfg("@ + fs[0] + ")]\n"@
    } else {
        "#[cfg(all("@ + join_commas(fs) + "))]\n"@
    }
}

pub open spec fn more_items_text(items: Seq<Seq<char>>) -> Seq<char>
    decreases items.len(),
{
    if items.len() == 0 {
        Seq::empty()
    } else {
        more_items_text(items.drop_last()) + ", "@ + items.last() + "\n"@
    }
}

/// The re-export of one statement's visible types, with the features
/// that they need in increasing order and without repeats.
pub open spec fn stmt_text(module: Seq<char>, st: StmtView) -> Seq<char> {
    let items = visible(st.declared_types);
    if items.len() == 0 {
        Seq::empty()
    } else {
        cfg_text(sorted_list(feature_attrs(st.required_features))) + "pub use self::__"@ + module
            + "::{"@ + items[0] + "\n"@ + more_items_text(items.drop_first()) + "};\n"@
    }
}

pub open spec fn stmts_text(module: Seq<char>, stmts: Seq<StmtView>) -> Seq<char>
    decreases stmts.len(),
{
    if stmts.len() == 0 {
        Seq::empty()
    } else {
        stmts_text(module, stmts.drop_last()) + stmt_text(module, stmts.last())
    }
}

pub open spec fn reexports_text(files: Seq<(Seq<char>, FileView)>) -> Seq<char>
    decreases files.len(),
{
    if files.len() == 0 {
        Seq::empty()
    } else {
        reexports_text(files.drop_last()) + stmts_text(
            module_name(files.last().0),
            files.last().1.stmts,
        )
    }
}

/// The whole module file.
pub open spec fn library_text(v: LibraryView) -> Seq<char> {
    header_text(display_name(v)) + extra_docs_text(v.data) + examples_text(v.data.examples)
        + alias_text(v) + "\n"@ + additions_text(v.data, display_name(v)) + "\n"@ + fixes_text(
        v.data,
        display_name(v),
    ) + "\n"@ + link_text(v) + "\n"@ + mods_text(v.files) + "\n"@ + reexports_text(v.files)
}

} // verus!

verus! {

// ---------------------------------------------------------------------
// Writing the pieces
// ---------------------------------------------------------------------

/// Appends a file name as a module name.
pub fn write_module_name(s: &mut String, name: &str)
    ensures
        final(s)@ == old(s)@ + module_name(name@),
{
    let v = chars_of(name);
    write_replaced(s, &v, '+', "_");
}

/// A file name as a module name: `+` becomes `_`.
pub fn module_name_of(name: &str) -> (r: String)
    ensures
        r@ == module_name(name@),
{
    let mut r = String::new();
    write_module_name(&mut r, name);
    assert(r@ =~= module_name(name@));
    r
}

pub(crate) fn write_docs_line(s: &mut String, text: &str)
    ensures
        final(s)@ == old(s)@ + docs_line(text@),
{
    let ghost start = s@;
    s.append("//! ");
    let p = crate::library::prepare_for_docs(text);
    s.append(p.as_str());
    s.append(".\n");
    assert(s@ =~= start + docs_line(text@));
}

fn write_example(s: &mut String, e: &Example)
    ensures
        final(s)@ == old(s)@ + example_text(e@),
{
    let ghost start = s@;
    s.append("//!\n");
    write_docs_line(s, e.description.as_str());
    s.append("//!\n");
    s.append("//! ```ignore\n");
    s.append("#![doc = include_str!(\"../../../examples/");
    s.append(e.name.as_str());
    s.append(".rs\")]\n");
    s.append("//! ```\n");
    assert(s@ =~= start + example_text(e@));
}

/// The views of a vector of examples.
pub open spec fn examples_view(es: Seq<Example>) -> Seq<ExampleView> {
    es.map_values(|e: Example| e@)
}

pub(crate) fn write_examples(s: &mut String, es: &Vec<Example>)
    ensures
        final(s)@ == old(s)@ + examples_text(examples_view(es@)),
{
    let ghost ev = examples_view(es@);
    if es.len() == 0 {
        assert(s@ =~= old(s)@ + examples_text(ev));
        return;
    }
    let ghost start = s@;
    s.append("//!\n");
    s.append("//!\n");
    s.append("//! ## Example");
    if es.len() > 1 {
        s.append("s");
    }
    s.append("\n");
    let ghost base = s@;
    assert(base =~= start + ("//!\n"@ + "//!\n"@ + "//! ## Example"@ + (if ev.len() > 1 {
        "s"@
    } else {
        Seq::empty()
    }) + "\n"@));
    let mut i: usize = 0;
    while i < es.len()
        invariant
            i <= es.len(),
            ev == examples_view(es@),
            s@ == base + example_list_text(ev.take(i as int)),
        decreases es.len() - i,
    {
        assert(ev.take(i + 1).drop_last() == ev.take(i as int));
        write_example(s, &es[i]);
        assert(s@ =~= base + example_list_text(ev.take(i + 1)));
        i = i + 1;
    }
    assert(ev.take(es.len() as int) == ev);
    assert(s@ =~= start + examples_text(ev));
}

pub(crate) fn write_mods(s: &mut String, files: &Vec<(String, File)>)
    ensures
        final(s)@ == old(s)@ + mods_text(files@.map_values(|e: (String, File)| entry_view(e))),
{
    let ghost fv = files@.map_values(|e: (String, File)| entry_view(e));
    let ghost base = s@;
    let mut i: usize = 0;
    assert(fv.take(0) =~= Seq::<(Seq<char>, FileView)>::empty());
    assert(s@ =~= base + mods_text(fv.take(0)));
    while i < files.len()
        invariant
            i <= files.len(),
            fv == files@.map_values(|e: (String, File)| entry_view(e)),
            s@ == base + mods_text(fv.take(i as int)),
        decreases files.len() - i,
    {
        let ghost prev = s@;
        assert(fv.take(i + 1).drop_last() == fv.take(i as int));
        assert(fv.take(i + 1).last().0 == files@[i as int].0@);
        s.append("#[path = \"");
        write_module_name(s, files[i].0.as_str());
        s.append(".rs\"]\n");
        s.append("mod __");
        write_module_name(s, files[i].0.as_str());
        s.append(";\n");
        assert(s@ =~= prev + mod_text(files@[i as int].0@));
        assert(s@ =~= base + mods_text(fv.take(i + 1)));
        i = i + 1;
    }
    assert(fv.take(files.len() as int) == fv);
}

} // verus!

verus! {

fn hidden_name(t: &String) -> (b: bool)
    ensures
        b == hidden(t@),
{
    let st = t.as_str();
    if st.is_empty() {
        false
    } else {
        st.get_char(0) == '_'
    }
}

/// The positions of the declared types that are re-exported.
fn visible_positions(types: &Vec<String>) -> (vis: Vec<usize>)
    ensures
        vis@.len() == visible(strs(types@)).len(),
        forall|k: int|
            0 <= k < vis@.len() ==> #[trigger] vis@[k] < types@.len() && types@[vis@[k] as int]@
                == visible(strs(types@))[k],
{
    let ghost tv = strs(types@);
    let mut vis: Vec<usize> = Vec::new();
    let mut j: usize = 0;
    while j < types.len()
        invariant
            j <= types.len(),
            tv == strs(types@),
            vis@.len() == visible(tv.take(j as int)).len(),
            forall|k: int|
                0 <= k < vis@.len() ==> #[trigger] vis@[k] < types@.len() && types@[vis@[k] as int]@
                    == visible(tv.take(j as int))[k],
        decreases types.len() - j,
    {
        let ghost before = visible(tv.take(j as int));
        assert(tv.take(j + 1).drop_last() == tv.take(j as int));
        assert(tv.take(j + 1).last() == types@[j as int]@);
        if !hidden_name(&types[j]) {
            vis.push(j);
            assert(visible(tv.take(j + 1)) == before + seq![types@[j as int]@]);
        } else {
            assert(visible(tv.take(j + 1)) =~= before);
        }
        j = j + 1;
    }
    assert(tv.take(types.len() as int) == tv);
    vis
}

/// The views of a vector of optional strings.
pub open spec fn opts_view(v: Seq<Option<String>>) -> Seq<Option<Seq<char>>> {
    v.map_values(|o: Option<String>| opt_view(o))
}

/// The `cfg` predicates that the required types need, in increasing
/// order and without repeats.
pub fn feature_list(req: &Vec<Option<String>>) -> (v: Vec<String>)
    ensures
        strictly_sorted(strs(v@)),
        strs(v@).to_set() == feature_attrs(opts_view(req@)),
{
    let ghost rv = opts_view(req@);
    let mut v: Vec<String> = Vec::new();
    let mut i: usize = 0;
    assert(strs(v@).to_set() =~= feature_attrs(rv.take(0)));
    while i < req.len()
        invariant
            i <= req.len(),
            rv == opts_view(req@),
            strictly_sorted(strs(v@)),
            strs(v@).to_set() == feature_attrs(rv.take(i as int)),
        decreases req.len() - i,
    {
        let ghost before = feature_attrs(rv.take(i as int));
        let ghost pre = rv.take(i as int);
        let ghost post = rv.take(i + 1);
        assert(forall|k: int| 0 <= k < i ==> post[k] == pre[k]);
        assert(post[i as int] == rv[i as int]);
        match &req[i] {
            Some(f) => {
                let mut attr = String::new();
                attr.append("feature = \"");
                attr.append(f.as_str());
                attr.append("\"");
                assert(attr@ =~= feature_attr(f@));
                proof {
                    assert forall|a: Seq<char>| #[trigger]
                        feature_attrs(post).contains(a) <==> before.insert(attr@).contains(a) by {
                        if feature_attrs(post).contains(a) {
                            let k = choose|k: int|
                                0 <= k < post.len() && #[trigger] post[k] is Some && a
                                    == feature_attr(post[k]->0);
                            if k < i {
                                assert(pre[k] is Some);
                                assert(before.contains(a));
                            }
                        }
                        if before.contains(a) {
                            let k = choose|k: int|
                                0 <= k < pre.len() && #[trigger] pre[k] is Some && a
                                    == feature_attr(pre[k]->0);
                            assert(post[k] is Some);
                        }
                        if a == attr@ {
                            assert(post[i as int] is Some);
                        }
                    }
                    assert(feature_attrs(post) =~= before.insert(attr@));
                }
                insert_sorted(&mut v, attr);
            },
            None => {
                proof {
                    assert forall|a: Seq<char>| #[trigger]
                        feature_attrs(post).contains(a) <==> before.contains(a) by {
                        if feature_attrs(post).contains(a) {
                            let k = choose|k: int|
                                0 <= k < post.len() && #[trigger] post[k] is Some && a
                                    == feature_attr(post[k]->0);
                            assert(k != i);
                            assert(pre[k] is Some);
                        }
                        if before.contains(a) {
                            let k = choose|k: int|
                                0 <= k < pre.len() && #[trigger] pre[k] is Some && a
                                    == feature_attr(pre[k]->0);
                            assert(post[k] is Some);
                        }
                    }
                    assert(feature_attrs(post) =~= before);
                }
            },
        }
        i = i + 1;
    }
    assert(rv.take(req.len() as int) == rv);
    v
}

fn write_cfg(s: &mut String, fs: &Vec<String>)
    ensures
        final(s)@ == old(s)@ + cfg_text(strs(fs@)),
{
    let ghost fv = strs(fs@);
    let ghost start = s@;
    if fs.len() == 0 {
        assert(s@ =~= start + cfg_text(fv));
    } else if fs.len() == 1 {
        s.append("#[cfg(");
        s.append(fs[0].as_str());
        s.append(")]\n");
        assert(s@ =~= start + cfg_text(fv));
    } else {
        s.append("#[cfg(all(");
        let ghost base = s@;
        s.append(fs[0].as_str());
        assert(fv.take(1).len() == 1);
        assert(s@ =~= base + join_commas(fv.take(1)));
        let mut i: usize = 1;
        while i < fs.len()
            invariant
                1 <= i <= fs.len(),
                fv == strs(fs@),
                s@ == base + join_commas(fv.take(i as int)),
            decreases fs.len() - i,
        {
            assert(fv.take(i + 1).drop_last() == fv.take(i as int));
            s.append(",");
            s.append(fs[i].as_str());
            assert(s@ =~= base + join_commas(fv.take(i + 1)));
            i = i + 1;
        }
        assert(fv.take(fs.len() as int) == fv);
        s.append("))]\n");
        assert(s@ =~= start + cfg_text(fv));
    }
}

fn write_stmt(s: &mut String, module: &str, st: &Stmt)
    ensures
        final(s)@ == old(s)@ + stmt_text(module@, st@),
{
    let ghost items = visible(st@.declared_types);
    let vis = visible_positions(&st.declared_types);
    if vis.len() == 0 {
        assert(s@ =~= old(s)@ + stmt_text(module@, st@));
        return;
    }
    let ghost start = s@;
    let fs = feature_list(&st.required_features);
    proof {
        lemma_sorted_list_of(strs(fs@));
    }
    write_cfg(s, &fs);
    s.append("pub use self::__");
    s.append(module);
    s.append("::{");
    assert(vis@[0] < st.declared_types@.len());
    s.append(st.declared_types[vis[0]].as_str());
    s.append("\n");
    let ghost base = s@;
    let ghost rest = items.drop_first();
    let mut k: usize = 1;
    assert(rest.take(0) =~= Seq::<Seq<char>>::empty());
    while k < vis.len()
        invariant
            1 <= k <= vis.len(),
            vis@.len() == items.len(),
            rest == items.drop_first(),
            forall|m: int|
                0 <= m < vis@.len() ==> #[trigger] vis@[m] < st.declared_types@.len()
                    && st.declared_types@[vis@[m] as int]@ == items[m],
            s@ == base + more_items_text(rest.take(k - 1)),
        decreases vis.len() - k,
    {
        assert(rest.take(k as int).drop_last() == rest.take(k - 1));
        assert(rest.take(k as int).last() == items[k as int]);
        assert(vis@[k as int] < st.declared_types@.len());
        assert(st.declared_types@[vis@[k as int] as int]@ == items[k as int]);
        s.append(", ");
        s.append(st.declared_types[vis[k]].as_str());
        s.append("\n");
        assert(s@ =~= base + more_items_text(rest.take(k as int)));
        k = k + 1;
    }
    assert(rest.take(vis.len() - 1) == rest);
    s.append("};\n");
    assert(st.declared_types@[vis@[0] as int]@ == items[0]);
    assert(s@ =~= start + stmt_text(module@, st@));
}

fn write_stmts(s: &mut String, module: &str, stmts: &Vec<Stmt>)
    ensures
        final(s)@ == old(s)@ + stmts_text(module@, stmts@.map_values(|st: Stmt| st@)),
{
    let ghost sv = stmts@.map_values(|st: Stmt| st@);
    let ghost base = s@;
    assert(sv.take(0) =~= Seq::<StmtView>::empty());
    assert(s@ =~= base + stmts_text(module@, sv.take(0)));
    let mut i: usize = 0;
    while i < stmts.len()
        invariant
            i <= stmts.len(),
            sv == stmts@.map_values(|st: Stmt| st@),
            s@ == base + stmts_text(module@, sv.take(i as int)),
        decreases stmts.len() - i,
    {
        assert(sv.take(i + 1).drop_last() == sv.take(i as int));
        assert(sv.take(i + 1).last() == stmts@[i as int]@);
        write_stmt(s, module, &stmts[i]);
        assert(s@ =~= base + stmts_text(module@, sv.take(i + 1)));
        i = i + 1;
    }
    assert(sv.take(stmts.len() as int) == sv);
}

pub(crate) fn write_reexports(s: &mut String, files: &Vec<(String, File)>)
    ensures
        final(s)@ == old(s)@ + reexports_text(
            files@.map_values(|e: (String, File)| entry_view(e)),
        ),
{
    let ghost fv = files@.map_values(|e: (String, File)| entry_view(e));
    let ghost base = s@;
    assert(fv.take(0) =~= Seq::<(Seq<char>, FileView)>::empty());
    assert(s@ =~= base + reexports_text(fv.take(0)));
    let mut i: usize = 0;
    while i < files.len()
        invariant
            i <= files.len(),
            fv == files@.map_values(|e: (String, File)| entry_view(e)),
            s@ == base + reexports_text(fv.take(i as int)),
        decreases files.len() - i,
    {
        assert(fv.take(i + 1).drop_last() == fv.take(i as int));
        assert(fv.take(i + 1).last() == entry_view(files@[i as int]));
        let module = module_name_of(files[i].0.as_str());
        write_stmts(s, module.as_str(), &files[i].1.stmts);
        assert(s@ =~= base + reexports_text(fv.take(i + 1)));
        i = i + 1;
    }
    assert(fv.take(files.len() as int) == fv);
}

} // verus!

verus! {

pub(crate) fn write_header(s: &mut String, name: &str)
    ensures
        final(s)@ == old(s)@ + header_text(name@),
{
    let ghost start = s@;
    s.append("// This file has been automatically generated by `objc2`'s `header-translator`.\n");
    s.append("// DO NOT EDIT\n");
    s.append("\n");
    s.append("//! # Bindings to the `");
    s.append(name);
    s.append("` framework\n");
    assert(s@ =~= start + header_text(name@));
}

pub(crate) fn write_extra_docs(s: &mut String, data: &LibraryData)
    ensures
        final(s)@ == old(s)@ + extra_docs_text(data@),
{
    let ghost start = s@;
    if !data.extra_docs.as_str().is_empty() {
        s.append("//!\n");
        write_docs_line(s, data.extra_docs.as_str());
    }
    assert(s@ =~= start + extra_docs_text(data@));
}

pub(crate) fn write_alias(s: &mut String, data: &LibraryData, link_name: &str)
    ensures
        final(s)@ == old(s)@ + (if data@.name is Some {
            "#![doc(alias = \""@ + link_name@ + "\")]\n"@
        } else {
            Seq::empty()
        }),
{
    let ghost start = s@;
    if data.name.is_some() {
        s.append("#![doc(alias = \"");
        s.append(link_name);
        s.append("\")]\n");
    }
    assert(s@ =~= start + (if data@.name is Some {
        "#![doc(alias = \""@ + link_name@ + "\")]\n"@
    } else {
        Seq::empty()
    }));
}

pub(crate) fn write_additions(s: &mut String, data: &LibraryData, name: &str)
    ensures
        final(s)@ == old(s)@ + additions_text(data@, name@),
{
    let ghost start = s@;
    if data.has_additions {
        s.append("#[path = \"../../additions/");
        s.append(name);
        s.append("/mod.rs\"]\n");
        s.append("mod additions;\n");
        s.append("pub use self::additions::*;\n");
    }
    assert(s@ =~= start + additions_text(data@, name@));
}

pub(crate) fn write_fixes(s: &mut String, data: &LibraryData, name: &str)
    ensures
        final(s)@ == old(s)@ + fixes_text(data@, name@),
{
    let ghost start = s@;
    if data.has_fixes {
        s.append("#[path = \"../../fixes/");
        s.append(name);
        s.append("/mod.rs\"]\n");
        s.append("mod fixes;\n");
        s.append("pub use self::fixes::*;\n");
    }
    assert(s@ =~= start + fixes_text(data@, name@));
}

pub(crate) fn write_link(s: &mut String, data: &LibraryData, link_name: &str)
    ensures
        final(s)@ == old(s)@ + "#[cfg_attr(feature = \"apple\", link(name = \""@ + link_name@
            + "\", kind = \"framework\"))]\n"@ + gnustep_text(data@.gnustep_library)
            + "extern \"C\" {}\n"@,
{
    let ghost start = s@;
    s.append("#[cfg_attr(feature = \"apple\", link(name = \"");
    s.append(link_name);
    s.append("\", kind = \"framework\"))]\n");
    let ghost mid = s@;
    match &data.gnustep_library {
        Some(g) => {
            s.append("#[cfg_attr(feature = \"gnustep-1-7\", link(name = \"");
            s.append(g.as_str());
            s.append("\", kind = \"dylib\"))]\n");
        },
        None => {},
    }
    assert(s@ =~= mid + gnustep_text(data@.gnustep_library));
    s.append("extern \"C\" {}\n");
    assert(s@ =~= start + "#[cfg_attr(feature = \"apple\", link(name = \""@ + link_name@
        + "\", kind = \"framework\"))]\n"@ + gnustep_text(data@.gnustep_library)
        + "extern \"C\" {}\n"@);
}

} // verus!

verus! {

// ---------------------------------------------------------------------
// Laws
// ---------------------------------------------------------------------

proof fn lemma_visible_nonempty(types: Seq<Seq<char>>, k: int)
    requires
        0 <= k < types.len(),
        !hidden(types[k]),
    ensures
        visible(types).len() > 0,
    decreases types.len(),
{
    if k < types.len() - 1 {
        lemma_visible_nonempty(types.drop_last(), k);
    }
}

proof fn lemma_visible_none(types: Seq<Seq<char>>)
    requires
        forall|k: int| 0 <= k < types.len() ==> hidden(#[trigger] types[k]),
    ensures
        visible(types).len() == 0,
    decreases types.len(),
{
    if types.len() > 0 {
        lemma_visible_none(types.drop_last());
    }
}

proof fn lemma_visible_first(types: Seq<Seq<char>>, k: int)
    requires
        0 <= k < types.len(),
        !hidden(types[k]),
        forall|j: int| 0 <= j < k ==> hidden(#[trigger] types[j]),
    ensures
        visible(types).len() > 0,
        visible(types)[0] == types[k],
    decreases types.len(),
{
    let d = types.drop_last();
    if k == types.len() - 1 {
        lemma_visible_none(d);
        assert(visible(types) =~= seq![types[k]]);
    } else {
        lemma_visible_first(d, k);
    }
}

proof fn lemma_visible_later(types: Seq<Seq<char>>, k0: int, k: int)
    requires
        0 <= k0 < k < types.len(),
        !hidden(types[k0]),
        !hidden(types[k]),
    ensures
        exists|idx: int| 1 <= idx < visible(types).len() && #[trigger] visible(types)[idx] == types[k],
    decreases types.len(),
{
    let d = types.drop_last();
    if k == types.len() - 1 {
        lemma_visible_nonempty(d, k0);
        let idx = visible(d).len() as int;
        assert(visible(types)[idx] == types[k]);
    } else {
        lemma_visible_later(d, k0, k);
        let idx = choose|idx: int| 1 <= idx < visible(d).len() && #[trigger] visible(d)[idx] == d[k];
        assert(visible(types)[idx] == types[k]);
    }
}

proof fn lemma_more_items_shows(items: Seq<Seq<char>>, idx: int)
    requires
        0 <= idx < items.len(),
    ensures
        occurs(more_items_text(items), ", "@ + items[idx] + "\n"@),
    decreases items.len(),
{
    let e = Seq::<char>::empty();
    let d = items.drop_last();
    let tail = ", "@ + items.last() + "\n"@;
    assert(more_items_text(items) == more_items_text(d) + ", "@ + items.last() + "\n"@);
    assert(more_items_text(items) =~= more_items_text(d) + tail);
    if idx == items.len() - 1 {
        lemma_occurs_within(more_items_text(d), tail, e);
        assert(more_items_text(d) + tail + e =~= more_items_text(items));
    } else {
        assert(d[idx] == items[idx]);
        lemma_more_items_shows(d, idx);
        lemma_occurs_within(e, more_items_text(d), tail);
        assert(e + more_items_text(d) + tail =~= more_items_text(items));
        lemma_occurs_trans(more_items_text(items), more_items_text(d), ", "@ + items[idx] + "\n"@);
    }
}

proof fn lemma_stmts_show(module: Seq<char>, stmts: Seq<StmtView>, j: int)
    requires
        0 <= j < stmts.len(),
    ensures
        occurs(stmts_text(module, stmts), stmt_text(module, stmts[j])),
    decreases stmts.len(),
{
    let e = Seq::<char>::empty();
    let d = stmts.drop_last();
    if j == stmts.len() - 1 {
        lemma_occurs_within(stmts_text(module, d), stmt_text(module, stmts.last()), e);
        assert(stmts_text(module, d) + stmt_text(module, stmts.last()) + e =~= stmts_text(
            module,
            stmts,
        ));
    } else {
        lemma_stmts_show(module, d, j);
        lemma_occurs_within(e, stmts_text(module, d), stmt_text(module, stmts.last()));
        assert(e + stmts_text(module, d) + stmt_text(module, stmts.last()) =~= stmts_text(
            module,
            stmts,
        ));
        lemma_occurs_trans(stmts_text(module, stmts), stmts_text(module, d), stmt_text(module, d[j]));
    }
}

proof fn lemma_reexports_show(files: Seq<(Seq<char>, FileView)>, i: int)
    requires
        0 <= i < files.len(),
    ensures
        occurs(reexports_text(files), stmts_text(module_name(files[i].0), files[i].1.stmts)),
    decreases files.len(),
{
    let e = Seq::<char>::empty();
    let d = files.drop_last();
    let last = stmts_text(module_name(files.last().0), files.last().1.stmts);
    if i == files.len() - 1 {
        lemma_occurs_within(reexports_text(d), last, e);
        assert(reexports_text(d) + last + e =~= reexports_text(files));
    } else {
        lemma_reexports_show(d, i);
        lemma_occurs_within(e, reexports_text(d), last);
        assert(e + reexports_text(d) + last =~= reexports_text(files));
        lemma_occurs_trans(
            reexports_text(files),
            reexports_text(d),
            stmts_text(module_name(d[i].0), d[i].1.stmts),
        );
    }
}

proof fn lemma_text_shows_stmt(v: LibraryView, i: int, j: int)
    requires
        0 <= i < v.files.len(),
        0 <= j < v.files[i].1.stmts.len(),
    ensures
        occurs(library_text(v), stmt_text(module_name(v.files[i].0), v.files[i].1.stmts[j])),
{
    let t = library_text(v);
    let r = reexports_text(v.files);
    let m = module_name(v.files[i].0);
    let pre = header_text(display_name(v)) + extra_docs_text(v.data) + examples_text(
        v.data.examples,
    ) + alias_text(v) + "\n"@ + additions_text(v.data, display_name(v)) + "\n"@ + fixes_text(
        v.data,
        display_name(v),
    ) + "\n"@ + link_text(v) + "\n"@ + mods_text(v.files) + "\n"@;
    lemma_occurs_within(pre, r, Seq::<char>::empty());
    assert(pre + r + Seq::<char>::empty() =~= t);
    lemma_reexports_show(v.files, i);
    lemma_occurs_trans(t, r, stmts_text(m, v.files[i].1.stmts));
    lemma_stmts_show(m, v.files[i].1.stmts, j);
    lemma_occurs_trans(t, stmts_text(m, v.files[i].1.stmts), stmt_text(m, v.files[i].1.stmts[j]));
}

/// Every statement of every file is re-exported by a `pub use` of its
/// own: where the `k`th type that the statement declares is the first
/// whose name does not start with `_`, the module text holds
/// `pub use self::__<module>::{<type>` and a line break, the module being
/// the file's name with `+` turned into `_`; every later such type of the
/// statement follows on a line of its own as `, <type>`.
pub proof fn law_every_statement_reexported(v: LibraryView, i: int, j: int, k: int)
    requires
        0 <= i < v.files.len(),
        0 <= j < v.files[i].1.stmts.len(),
        0 <= k < v.files[i].1.stmts[j].declared_types.len(),
        !(v.files[i].1.stmts[j].declared_types[k].len() > 0
            && v.files[i].1.stmts[j].declared_types[k][0] == '_'),
    ensures
        (forall|k0: int|
            0 <= k0 < k ==> (#[trigger] v.files[i].1.stmts[j].declared_types[k0]).len() > 0
                && v.files[i].1.stmts[j].declared_types[k0][0] == '_') ==> occurs(
            library_text(v),
            "pub use self::__"@ + replace_char(v.files[i].0, '+', "_"@) + "::{"@
                + v.files[i].1.stmts[j].declared_types[k] + "\n"@,
        ),
        (exists|k0: int|
            0 <= k0 < k && !((#[trigger] v.files[i].1.stmts[j].declared_types[k0]).len() > 0
                && v.files[i].1.stmts[j].declared_types[k0][0] == '_')) ==> occurs(
            library_text(v),
            ", "@ + v.files[i].1.stmts[j].declared_types[k] + "\n"@,
        ),
{
    let st = v.files[i].1.stmts[j];
    let types = st.declared_types;
    let m = module_name(v.files[i].0);
    let items = visible(types);
    lemma_text_shows_stmt(v, i, j);
    let t = library_text(v);
    let s = stmt_text(m, st);
    lemma_visible_nonempty(types, k);
    let cfg = cfg_text(sorted_list(feature_attrs(st.required_features)));
    let line = "pub use self::__"@ + m + "::{"@ + items[0] + "\n"@;
    let rest = more_items_text(items.drop_first()) + "};\n"@;
    assert(s =~= cfg + line + rest);
    if forall|k0: int| 0 <= k0 < k ==> hidden(#[trigger] types[k0]) {
        lemma_visible_first(types, k);
        lemma_occurs_within(cfg, line, rest);
        lemma_occurs_trans(t, s, line);
    }
    if exists|k0: int| 0 <= k0 < k && !hidden(#[trigger] types[k0]) {
        let k0 = choose|k0: int| 0 <= k0 < k && !hidden(#[trigger] types[k0]);
        lemma_visible_later(types, k0, k);
        let idx = choose|idx: int| 1 <= idx < items.len() && #[trigger] items[idx] == types[k];
        assert(items.drop_first()[idx - 1] == types[k]);
        lemma_more_items_shows(items.drop_first(), idx - 1);
        let more = more_items_text(items.drop_first());
        lemma_occurs_within(cfg + line, more, "};\n"@);
        assert(cfg + line + more + "};\n"@ =~= s);
        lemma_occurs_trans(t, s, more);
        lemma_occurs_trans(t, more, ", "@ + types[k] + "\n"@);
    }
}

} // verus!

verus! {

// ---------------------------------------------------------------------
// Laws relating libraries that differ in one place
// ---------------------------------------------------------------------

/// The library with its `has_additions` and `has_fixes` set as given.
pub open spec fn with_modules(v: LibraryView, additions: bool, fixes: bool) -> LibraryView {
    LibraryView {
        files: v.files,
        link_name: v.link_name,
        data: DataView {
            name: v.data.name,
            extra_docs: v.data.extra_docs,
            has_additions: additions,
            has_fixes: fixes,
            examples: v.data.examples,
            gnustep_library: v.data.gnustep_library,
        },
    }
}

/// The name the bindings are known by: the framework's name if given,
/// else the link name.
pub open spec fn framework_name(v: LibraryView) -> Seq<char> {
    match v.data.name {
        Some(n) => n,
        None => v.link_name,
    }
}

/// Six pieces appended one after another after `a + b` regroup behind it.
proof fn lemma_regroup6(
    a: Seq<char>,
    b: Seq<char>,
    c1: Seq<char>,
    c2: Seq<char>,
    c3: Seq<char>,
    c4: Seq<char>,
    c5: Seq<char>,
    c6: Seq<char>,
)
    ensures
        a + b + c1 + c2 + c3 + c4 + c5 + c6 == a + b + (c1 + c2 + c3 + c4 + c5 + c6),
{
    assert(a + b + c1 + c2 + c3 + c4 + c5 + c6 =~= a + b + (c1 + c2 + c3 + c4 + c5 + c6));
}

/// Two more pieces appended after `a + b` regroup behind it.
proof fn lemma_regroup_last(a: Seq<char>, b: Seq<char>, c1: Seq<char>, c2: Seq<char>)
    ensures
        a + b + c1 + c2 == a + (b + c1 + c2),
{
    assert(a + b + c1 + c2 =~= a + (b + c1 + c2));
}

/// Inserting `m` between `x` and `r` is inserting it into `x + r` at the
/// end of `x`.
proof fn lemma_inserted(x: Seq<char>, m: Seq<char>, r: Seq<char>)
    ensures
        (x + r).take(x.len() as int) == x,
        (x + r).skip(x.len() as int) == r,
        x + Seq::<char>::empty() + r == x + r,
{
    assert((x + r).take(x.len() as int) =~= x);
    assert((x + r).skip(x.len() as int) =~= r);
    assert(x + Seq::<char>::empty() =~= x);
}

/// The module text split around its fixes module.
proof fn lemma_text_around_fixes(v: LibraryView)
    ensures
        library_text(v) == header_text(display_name(v)) + extra_docs_text(v.data) + examples_text(
            v.data.examples,
        ) + alias_text(v) + "\n"@ + additions_text(v.data, display_name(v)) + "\n"@
            + fixes_text(v.data, display_name(v)) + ("\n"@ + link_text(v) + "\n"@ + mods_text(
            v.files,
        ) + "\n"@ + reexports_text(v.files)),
{
    lemma_regroup6(
        header_text(display_name(v)) + extra_docs_text(v.data) + examples_text(v.data.examples)
            + alias_text(v) + "\n"@ + additions_text(v.data, display_name(v)) + "\n"@,
        fixes_text(v.data, display_name(v)),
        "\n"@,
        link_text(v),
        "\n"@,
        mods_text(v.files),
        "\n"@,
        reexports_text(v.files),
    );
}

/// Declaring that a library has fixes inserts exactly the fixes module
/// into its module text, at one place, whether or not it has additions:
/// `#[path = "../../fixes/<name>/mod.rs"]`, `mod fixes;` and
/// `pub use self::fixes::*;`, each on a line of its own.
pub proof fn law_fixes_module(v: LibraryView, additions: bool)
    ensures
        exists|k: int|
            0 <= k <= library_text(with_modules(v, additions, false)).len() && library_text(
                with_modules(v, additions, true),
            ) == #[trigger] library_text(with_modules(v, additions, false)).take(k)
                + ("#[path = \"../../fixes/"@ + framework_name(v) + "/mod.rs\"]\n"@
                + "mod fixes;\n"@ + "pub use self::fixes::*;\n"@) + library_text(
                with_modules(v, additions, false),
            ).skip(k),
{
    let on = with_modules(v, additions, true);
    let off = with_modules(v, additions, false);
    let name = framework_name(v);
    assert(display_name(on) == name && display_name(off) == name);
    let f = "#[path = \"../../fixes/"@ + name + "/mod.rs\"]\n"@ + "mod fixes;\n"@
        + "pub use self::fixes::*;\n"@;
    assert(fixes_text(on.data, name) == f);
    assert(fixes_text(off.data, name) == Seq::<char>::empty());
    assert(alias_text(on) == alias_text(off));
    assert(link_text(on) == link_text(off));
    assert(additions_text(on.data, name) == additions_text(off.data, name));
    assert(extra_docs_text(on.data) == extra_docs_text(off.data));
    lemma_text_around_fixes(on);
    lemma_text_around_fixes(off);
    let p = header_text(name) + extra_docs_text(off.data) + examples_text(off.data.examples)
        + alias_text(off) + "\n"@ + additions_text(off.data, name) + "\n"@;
    let r = "\n"@ + link_text(off) + "\n"@ + mods_text(off.files) + "\n"@ + reexports_text(
        off.files,
    );
    assert(library_text(on) == p + f + r);
    assert(library_text(off) == p + Seq::<char>::empty() + r);
    lemma_inserted(p, f, r);
    let k = p.len() as int;
    assert(library_text(on) == library_text(off).take(k) + f + library_text(off).skip(k));
}

/// The module text split around its additions module.
proof fn lemma_text_around_additions(v: LibraryView)
    ensures
        library_text(v) == header_text(display_name(v)) + extra_docs_text(v.data) + examples_text(
            v.data.examples,
        ) + alias_text(v) + "\n"@ + additions_text(v.data, display_name(v)) + ("\n"@
            + fixes_text(v.data, display_name(v)) + "\n"@ + link_text(v) + "\n"@ + mods_text(
            v.files,
        ) + "\n"@ + reexports_text(v.files)),
{
    lemma_regroup6(
        header_text(display_name(v)) + extra_docs_text(v.data) + examples_text(v.data.examples)
            + alias_text(v) + "\n"@,
        additions_text(v.data, display_name(v)),
        "\n"@,
        fixes_text(v.data, display_name(v)),
        "\n"@,
        link_text(v),
        "\n"@,
        mods_text(v.files),
    );
    lemma_regroup_last(
        header_text(display_name(v)) + extra_docs_text(v.data) + examples_text(v.data.examples)
            + alias_text(v) + "\n"@ + additions_text(v.data, display_name(v)),
        "\n"@ + fixes_text(v.data, display_name(v)) + "\n"@ + link_text(v) + "\n"@ + mods_text(
            v.files,
        ),
        "\n"@,
        reexports_text(v.files),
    );
}

/// Declaring that a library has additions inserts exactly the additions
/// module into its module text, at one place, whether or not it has
/// fixes: `#[path = "../../additions/<name>/mod.rs"]`, `mod additions;`
/// and `pub use self::additions::*;`, each on a line of its own.
pub proof fn law_additions_module(v: LibraryView, fixes: bool)
    ensures
        exists|k: int|
            0 <= k <= library_text(with_modules(v, false, fixes)).len() && library_text(
                with_modules(v, true, fixes),
            ) == #[trigger] library_text(with_modules(v, false, fixes)).take(k)
                + ("#[path = \"../../additions/"@ + framework_name(v) + "/mod.rs\"]\n"@
                + "mod additions;\n"@ + "pub use self::additions::*;\n"@) + library_text(
                with_modules(v, false, fixes),
            ).skip(k),
{
    let on = with_modules(v, true, fixes);
    let off = with_modules(v, false, fixes);
    let name = framework_name(v);
    assert(display_name(on) == name && display_name(off) == name);
    let a = "#[path = \"../../additions/"@ + name + "/mod.rs\"]\n"@ + "mod additions;\n"@
        + "pub use self::additions::*;\n"@;
    assert(additions_text(on.data, name) == a);
    assert(additions_text(off.data, name) == Seq::<char>::empty());
    assert(alias_text(on) == alias_text(off));
    assert(link_text(on) == link_text(off));
    assert(fixes_text(on.data, name) == fixes_text(off.data, name));
    assert(extra_docs_text(on.data) == extra_docs_text(off.data));
    lemma_text_around_additions(on);
    lemma_text_around_additions(off);
    let p = header_text(name) + extra_docs_text(off.data) + examples_text(off.data.examples)
        + alias_text(off) + "\n"@;
    let r = "\n"@ + fixes_text(off.data, name) + "\n"@ + link_text(off) + "\n"@ + mods_text(
        off.files,
    ) + "\n"@ + reexports_text(off.files);
    assert(library_text(on) == p + a + r);
    assert(library_text(off) == p + Seq::<char>::empty() + r);
    lemma_inserted(p, a, r);
    let k = p.len() as int;
    assert(library_text(on) == library_text(off).take(k) + a + library_text(off).skip(k));
}

/// The library with `st` appended to the statements of its `i`th file.
pub open spec fn with_stmt(v: LibraryView, i: int, st: StmtView) -> LibraryView {
    LibraryView {
        files: v.files.update(
            i,
            (
                v.files[i].0,
                FileView { stmts: v.files[i].1.stmts.push(st), source: v.files[i].1.source },
            ),
        ),
        link_name: v.link_name,
        data: v.data,
    }
}

proof fn lemma_mods_same_names(a: Seq<(Seq<char>, FileView)>, b: Seq<(Seq<char>, FileView)>)
    requires
        a.len() == b.len(),
        forall|k: int| 0 <= k < a.len() ==> (#[trigger] a[k]).0 == b[k].0,
    ensures
        mods_text(a) == mods_text(b),
    decreases a.len(),
{
    if a.len() > 0 {
        let (da, db) = (a.drop_last(), b.drop_last());
        assert forall|k: int| 0 <= k < da.len() implies (#[trigger] da[k]).0 == db[k].0 by {
            assert(da[k] == a[k] && db[k] == b[k]);
        }
        lemma_mods_same_names(da, db);
        assert(a.last().0 == b.last().0);
    }
}

proof fn lemma_reexports_same_stmts(
    a: Seq<(Seq<char>, FileView)>,
    b: Seq<(Seq<char>, FileView)>,
)
    requires
        a.len() == b.len(),
        forall|k: int|
            0 <= k < a.len() ==> (#[trigger] a[k]).0 == b[k].0 && stmts_text(
                module_name(a[k].0),
                a[k].1.stmts,
            ) == stmts_text(module_name(b[k].0), b[k].1.stmts),
    ensures
        reexports_text(a) == reexports_text(b),
    decreases a.len(),
{
    if a.len() > 0 {
        let (da, db) = (a.drop_last(), b.drop_last());
        assert forall|k: int| 0 <= k < da.len() implies (#[trigger] da[k]).0 == db[k].0
            && stmts_text(module_name(da[k].0), da[k].1.stmts) == stmts_text(
            module_name(db[k].0),
            db[k].1.stmts,
        ) by {
            assert(da[k] == a[k] && db[k] == b[k]);
        }
        lemma_reexports_same_stmts(da, db);
        assert(a[a.len() - 1] == a.last() && b[b.len() - 1] == b.last());
    }
}

/// A statement none of whose declared types may be re-exported (each
/// name starts with `_`) leaves the module text as it was: appending it
/// to any file's statements changes nothing in the text.
pub proof fn law_hidden_statement_adds_nothing(v: LibraryView, i: int, st: StmtView)
    requires
        0 <= i < v.files.len(),
        forall|k: int|
            0 <= k < st.declared_types.len() ==> (#[trigger] st.declared_types[k]).len() > 0
                && st.declared_types[k][0] == '_',
    ensures
        library_text(with_stmt(v, i, st)) == library_text(v),
{
    let w = with_stmt(v, i, st);
    let m = module_name(v.files[i].0);
    let stmts = v.files[i].1.stmts;
    assert forall|k: int| 0 <= k < st.declared_types.len() implies hidden(
        #[trigger] st.declared_types[k],
    ) by {}
    lemma_visible_none(st.declared_types);
    assert(stmt_text(m, st) =~= Seq::<char>::empty());
    assert(stmts.push(st).drop_last() =~= stmts);
    assert(stmts_text(m, stmts.push(st)) =~= stmts_text(m, stmts));
    assert forall|k: int| 0 <= k < w.files.len() implies (#[trigger] w.files[k]).0
        == v.files[k].0 && stmts_text(module_name(w.files[k].0), w.files[k].1.stmts)
        == stmts_text(module_name(v.files[k].0), v.files[k].1.stmts) by {
        if k != i {
            assert(w.files[k] == v.files[k]);
        }
    }
    assert forall|k: int| 0 <= k < w.files.len() implies (#[trigger] w.files[k]).0
        == v.files[k].0 by {}
    lemma_mods_same_names(w.files, v.files);
    lemma_reexports_same_stmts(w.files, v.files);
}

proof fn lemma_concat_regroup(a: Seq<char>, b: Seq<char>, c: Seq<char>)
    ensures
        a + (b + c) == a + b + c,
{
    assert(a + (b + c) =~= a + b + c);
}

/// Statements are re-exported in the order of the files and, within a
/// file, in the order of its statements: a statement appended to the last
/// file's statements adds its re-export at the very end of the module
/// text, after everything that was there.
pub proof fn law_statement_appended_last(v: LibraryView, st: StmtView)
    requires
        v.files.len() > 0,
    ensures
        library_text(with_stmt(v, v.files.len() - 1, st)) == library_text(v) + stmt_text(
            replace_char(v.files.last().0, '+', "_"@),
            st,
        ),
{
    let i = v.files.len() - 1;
    let w = with_stmt(v, i, st);
    let m = module_name(v.files[i].0);
    let stmts = v.files[i].1.stmts;
    assert(stmts.push(st).drop_last() =~= stmts);
    assert(stmts_text(m, stmts.push(st)) == stmts_text(m, stmts) + stmt_text(m, st));
    assert(w.files.drop_last() =~= v.files.drop_last());
    assert(w.files.last() == (v.files[i].0, w.files[i].1));
    assert(reexports_text(w.files) == reexports_text(v.files.drop_last()) + (stmts_text(m, stmts)
        + stmt_text(m, st)));
    lemma_concat_regroup(reexports_text(v.files.drop_last()), stmts_text(m, stmts), stmt_text(m, st));
    assert(reexports_text(w.files) == reexports_text(v.files) + stmt_text(m, st));
    assert forall|k: int| 0 <= k < w.files.len() implies (#[trigger] w.files[k]).0
        == v.files[k].0 by {}
    lemma_mods_same_names(w.files, v.files);
    let pre = header_text(display_name(v)) + extra_docs_text(v.data) + examples_text(
        v.data.examples,
    ) + alias_text(v) + "\n"@ + additions_text(v.data, display_name(v)) + "\n"@ + fixes_text(
        v.data,
        display_name(v),
    ) + "\n"@ + link_text(v) + "\n"@ + mods_text(v.files) + "\n"@;
    lemma_concat_regroup(pre, reexports_text(v.files), stmt_text(m, st));
}

} // verus!
