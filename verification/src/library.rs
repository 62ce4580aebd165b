//! A framework's bindings as a set of generated files, and the text of
//! the module file that ties them together.
use vstd::prelude::*;

use crate::module_text::{
    display_name, docs_text, header_text, library_text, write_additions, write_alias,
    write_examples, write_extra_docs, write_fixes, write_header, write_link, write_mods,
    write_reexports,
};
use crate::sorted::{strictly_sorted, strs};
use crate::text::{
    chars_equal, chars_of, lemma_lex_irreflexive, lemma_lex_total, lemma_lex_transitive, lex_less,
    lemma_replace_round_trip, lex_lt, replace_char, replace_str, trim, trimmed, write_replaced,
};

verus! {

// ---------------------------------------------------------------------
// Data
// ---------------------------------------------------------------------

/// An example program shown in a framework's documentation.
#[derive(Debug)]
pub struct Example {
    /// The example's file name, without `.rs`.
    pub name: String,
    pub description: String,
}

pub struct ExampleView {
    pub name: Seq<char>,
    pub description: Seq<char>,
}

impl View for Example {
    type V = ExampleView;

    open spec fn view(&self) -> ExampleView {
        ExampleView { name: self.name@, description: self.description@ }
    }
}

impl Clone for Example {
    fn clone(&self) -> (r: Self)
        ensures
            r@ == self@,
    {
        Example { name: self.name.clone(), description: self.description.clone() }
    }
}

/// The view of an optional string.
pub open spec fn opt_view(o: Option<String>) -> Option<Seq<char>> {
    match o {
        Some(s) => Some(s@),
        None => None,
    }
}

fn clone_opt(o: &Option<String>) -> (r: Option<String>)
    ensures
        opt_view(r) == opt_view(*o),
{
    match o {
        Some(s) => Some(s.clone()),
        None => None,
    }
}

/// What the configuration says about a framework.
#[derive(Debug)]
pub struct LibraryData {
    /// The framework's name, where it differs from the link name.
    pub name: Option<String>,
    /// Documentation added to the module.
    pub extra_docs: String,
    /// Whether hand-written additions accompany the bindings.
    pub has_additions: bool,
    /// Whether hand-written fixes accompany the bindings.
    pub has_fixes: bool,
    pub examples: Vec<Example>,
    /// The library to link on GNUstep, if there is one.
    pub gnustep_library: Option<String>,
}

pub struct DataView {
    pub name: Option<Seq<char>>,
    pub extra_docs: Seq<char>,
    pub has_additions: bool,
    pub has_fixes: bool,
    pub examples: Seq<ExampleView>,
    pub gnustep_library: Option<Seq<char>>,
}

impl View for LibraryData {
    type V = DataView;

    open spec fn view(&self) -> DataView {
        DataView {
            name: opt_view(self.name),
            extra_docs: self.extra_docs@,
            has_additions: self.has_additions,
            has_fixes: self.has_fixes,
            examples: self.examples@.map_values(|e: Example| e@),
            gnustep_library: opt_view(self.gnustep_library),
        }
    }
}

impl Clone for LibraryData {
    fn clone(&self) -> (r: Self)
        ensures
            r@ == self@,
    {
        let mut examples: Vec<Example> = Vec::new();
        let mut i: usize = 0;
        while i < self.examples.len()
            invariant
                i <= self.examples.len(),
                examples@.len() == i,
                forall|k: int| 0 <= k < i ==> #[trigger] examples@[k]@ == self.examples@[k]@,
            decreases self.examples.len() - i,
        {
            examples.push(self.examples[i].clone());
            i = i + 1;
        }
        let r = LibraryData {
            name: clone_opt(&self.name),
            extra_docs: self.extra_docs.clone(),
            has_additions: self.has_additions,
            has_fixes: self.has_fixes,
            examples,
            gnustep_library: clone_opt(&self.gnustep_library),
        };
        assert(r.examples@.map_values(|e: Example| e@) =~= self.examples@.map_values(
            |e: Example| e@,
        ));
        r
    }
}

impl Default for LibraryData {
    fn default() -> (r: Self)
        ensures
            r@ == (DataView {
                name: None,
                extra_docs: Seq::empty(),
                has_additions: false,
                has_fixes: false,
                examples: Seq::empty(),
                gnustep_library: None,
            }),
    {
        let r = LibraryData {
            name: None,
            extra_docs: String::new(),
            has_additions: false,
            has_fixes: false,
            examples: Vec::new(),
            gnustep_library: None,
        };
        assert(r.examples@.map_values(|e: Example| e@) =~= Seq::<ExampleView>::empty());
        r
    }
}

/// What the module file needs to know of one statement of a file.
#[derive(Debug)]
pub struct Stmt {
    /// The names of the types that the statement declares, in order.
    pub declared_types: Vec<String>,
    /// For each type that the statement requires, the feature that
    /// enables it, if any.
    pub required_features: Vec<Option<String>>,
}

pub struct StmtView {
    pub declared_types: Seq<Seq<char>>,
    pub required_features: Seq<Option<Seq<char>>>,
}

impl View for Stmt {
    type V = StmtView;

    open spec fn view(&self) -> StmtView {
        StmtView {
            declared_types: strs(self.declared_types@),
            required_features: self.required_features@.map_values(|o: Option<String>| opt_view(o)),
        }
    }
}

/// A generated file: its statements and its rendered source text.
#[derive(Debug)]
pub struct File {
    pub stmts: Vec<Stmt>,
    pub source: String,
}

pub struct FileView {
    pub stmts: Seq<StmtView>,
    pub source: Seq<char>,
}

impl View for File {
    type V = FileView;

    open spec fn view(&self) -> FileView {
        FileView { stmts: self.stmts@.map_values(|s: Stmt| s@), source: self.source@ }
    }
}

// ---------------------------------------------------------------------
// Equality
// ---------------------------------------------------------------------

fn strings_equal(a: &Vec<String>, b: &Vec<String>) -> (r: bool)
    ensures
        r == (strs(a@) == strs(b@)),
{
    if a.len() != b.len() {
        return false;
    }
    let mut i: usize = 0;
    while i < a.len()
        invariant
            a.len() == b.len(),
            i <= a.len(),
            forall|k: int| 0 <= k < i ==> #[trigger] a@[k]@ == b@[k]@,
        decreases a.len() - i,
    {
        if a[i] != b[i] {
            assert(strs(a@)[i as int] != strs(b@)[i as int]);
            return false;
        }
        i = i + 1;
    }
    assert(strs(a@) =~= strs(b@));
    true
}

fn opt_equal(a: &Option<String>, b: &Option<String>) -> (r: bool)
    ensures
        r == (opt_view(*a) == opt_view(*b)),
{
    match a {
        Some(x) => match b {
            Some(y) => {
                let same: bool = x.eq(y);
                same
            },
            None => false,
        },
        None => b.is_none(),
    }
}

fn opts_equal(a: &Vec<Option<String>>, b: &Vec<Option<String>>) -> (r: bool)
    ensures
        r == (a@.map_values(|o: Option<String>| opt_view(o)) == b@.map_values(
            |o: Option<String>| opt_view(o),
        )),
{
    let ghost av = a@.map_values(|o: Option<String>| opt_view(o));
    let ghost bv = b@.map_values(|o: Option<String>| opt_view(o));
    if a.len() != b.len() {
        assert(av.len() != bv.len());
        return false;
    }
    let mut i: usize = 0;
    while i < a.len()
        invariant
            a.len() == b.len(),
            i <= a.len(),
            av == a@.map_values(|o: Option<String>| opt_view(o)),
            bv == b@.map_values(|o: Option<String>| opt_view(o)),
            forall|k: int| 0 <= k < i ==> #[trigger] av[k] == bv[k],
        decreases a.len() - i,
    {
        if !opt_equal(&a[i], &b[i]) {
            assert(av[i as int] != bv[i as int]);
            return false;
        }
        i = i + 1;
    }
    assert(av =~= bv);
    true
}

impl PartialEq for Stmt {
    fn eq(&self, other: &Stmt) -> (r: bool) {
        strings_equal(&self.declared_types, &other.declared_types) && opts_equal(
            &self.required_features,
            &other.required_features,
        )
    }
}

impl vstd::std_specs::cmp::PartialEqSpecImpl for Stmt {
    open spec fn obeys_eq_spec() -> bool {
        true
    }

    open spec fn eq_spec(&self, other: &Stmt) -> bool {
        self@ == other@
    }
}

impl PartialEq for File {
    fn eq(&self, other: &File) -> (r: bool) {
        let ghost av = self.stmts@.map_values(|s: Stmt| s@);
        let ghost bv = other.stmts@.map_values(|s: Stmt| s@);
        if self.source != other.source {
            return false;
        }
        if self.stmts.len() != other.stmts.len() {
            assert(av.len() != bv.len());
            return false;
        }
        let mut i: usize = 0;
        while i < self.stmts.len()
            invariant
                self.stmts.len() == other.stmts.len(),
                i <= self.stmts.len(),
                av == self.stmts@.map_values(|s: Stmt| s@),
                bv == other.stmts@.map_values(|s: Stmt| s@),
                forall|k: int| 0 <= k < i ==> #[trigger] av[k] == bv[k],
            decreases self.stmts.len() - i,
        {
            let same: bool = self.stmts[i].eq(&other.stmts[i]);
            if !same {
                assert(av[i as int] != bv[i as int]);
                return false;
            }
            i = i + 1;
        }
        assert(av =~= bv);
        true
    }
}

impl vstd::std_specs::cmp::PartialEqSpecImpl for File {
    open spec fn obeys_eq_spec() -> bool {
        true
    }

    open spec fn eq_spec(&self, other: &File) -> bool {
        self@ == other@
    }
}

} // verus!

verus! {

// ---------------------------------------------------------------------
// The library
// ---------------------------------------------------------------------

/// The files of a library by name, in increasing order of name.
pub open spec fn names(files: Seq<(Seq<char>, FileView)>) -> Seq<Seq<char>> {
    files.map_values(|e: (Seq<char>, FileView)| e.0)
}

/// Whether a file is stored under `name`.
pub open spec fn has_name(files: Seq<(Seq<char>, FileView)>, name: Seq<char>) -> bool {
    exists|i: int| 0 <= i < files.len() && #[trigger] files[i].0 == name
}

/// A position where a file is stored under `name`.
pub open spec fn position(files: Seq<(Seq<char>, FileView)>, name: Seq<char>) -> int {
    choose|i: int| 0 <= i < files.len() && #[trigger] files[i].0 == name
}

/// The file stored under `name`, if any.
pub open spec fn lookup(files: Seq<(Seq<char>, FileView)>, name: Seq<char>) -> Option<FileView> {
    if has_name(files, name) {
        Some(files[position(files, name)].1)
    } else {
        None
    }
}

pub proof fn lemma_lookup_at(files: Seq<(Seq<char>, FileView)>, i: int)
    requires
        strictly_sorted(names(files)),
        0 <= i < files.len(),
    ensures
        lookup(files, files[i].0) == Some(files[i].1),
{
    let k = files[i].0;
    assert(has_name(files, k));
    let j = position(files, k);
    if j != i {
        let ns = names(files);
        assert(ns[i] == k && ns[j] == k);
        if i < j {
            assert(lex_lt(ns[i], ns[j]));
        } else {
            assert(lex_lt(ns[j], ns[i]));
        }
        lemma_lex_irreflexive(k);
    }
}

/// The view of a stored file entry.
pub open spec fn entry_view(e: (String, File)) -> (Seq<char>, FileView) {
    (e.0@, e.1@)
}

pub struct LibraryView {
    /// The files, in increasing order of name.
    pub files: Seq<(Seq<char>, FileView)>,
    pub link_name: Seq<char>,
    pub data: DataView,
}

/// A framework's bindings: its files by name, the name it is linked
/// under, and its configuration.
#[derive(Debug)]
pub struct Library {
    files: Vec<(String, File)>,
    link_name: String,
    data: LibraryData,
}

impl View for Library {
    type V = LibraryView;

    closed spec fn view(&self) -> LibraryView {
        LibraryView {
            files: self.files@.map_values(|e: (String, File)| entry_view(e)),
            link_name: self.link_name@,
            data: self.data@,
        }
    }
}

impl Library {
    /// No name occurs twice, and the names are in increasing order.
    #[verifier::type_invariant]
    closed spec fn files_ordered(self) -> bool {
        strictly_sorted(names(self.files@.map_values(|e: (String, File)| entry_view(e))))
    }

    /// Whether a library's files are in increasing order of name.
    pub open spec fn well_ordered(v: LibraryView) -> bool {
        strictly_sorted(names(v.files))
    }

    /// A library with no files yet.
    pub fn new(name: &str, data: &LibraryData) -> (l: Self)
        ensures
            l@.files == Seq::<(Seq<char>, FileView)>::empty(),
            l@.link_name == name@,
            l@.data == data@,
    {
        let files: Vec<(String, File)> = Vec::new();
        let l = Library { files, link_name: String::from_str(name), data: data.clone() };
        assert(l@.files =~= Seq::<(Seq<char>, FileView)>::empty());
        l
    }

    /// The files, in increasing order of name.
    pub fn files(&self) -> (r: &Vec<(String, File)>)
        ensures
            r@.map_values(|e: (String, File)| entry_view(e)) == self@.files,
            Self::well_ordered(self@),
    {
        proof {
            use_type_invariant(self);
        }
        &self.files
    }

    /// Stores `file` under `name`, and hands back the file that was
    /// stored there before, if any.
    pub fn insert_file(&mut self, name: String, file: File) -> (prev: Option<File>)
        ensures
            forall|k: Seq<char>| #[trigger]
                lookup(final(self)@.files, k) == if k == name@ {
                    Some(file@)
                } else {
                    lookup(old(self)@.files, k)
                },
            final(self)@.files.len() == old(self)@.files.len() + if prev is Some {
                0int
            } else {
                1int
            },
            match prev {
                Some(f) => lookup(old(self)@.files, name@) == Some(f@),
                None => lookup(old(self)@.files, name@) is None,
            },
            final(self)@.link_name == old(self)@.link_name,
            final(self)@.data == old(self)@.data,
            Self::well_ordered(final(self)@),
    {
        proof {
            use_type_invariant(&*self);
        }
        let ghost old_fs = self@.files;
        let mut files: Vec<(String, File)> = Vec::new();
        std::mem::swap(&mut files, &mut self.files);
        assert(files@.map_values(|e: (String, File)| entry_view(e)) == old_fs);
        let ghost ns = names(old_fs);
        let xc = chars_of(name.as_str());
        let mut i: usize = 0;
        let mut found = false;
        while i < files.len()
            invariant_except_break
                files@.map_values(|e: (String, File)| entry_view(e)) == old_fs,
                ns == names(old_fs),
                strictly_sorted(ns),
                xc@ == name@,
                i <= files.len(),
                !found,
                forall|k: int| 0 <= k < i ==> lex_lt(#[trigger] ns[k], name@),
            ensures
                files@.map_values(|e: (String, File)| entry_view(e)) == old_fs,
                i <= files.len(),
                forall|k: int| 0 <= k < i ==> lex_lt(#[trigger] ns[k], name@),
                found ==> i < files.len() && ns[i as int] == name@,
                !found ==> (i < files.len() ==> lex_lt(name@, ns[i as int])),
            decreases files.len() - i,
        {
            let c = chars_of(files[i].0.as_str());
            assert(c@ == ns[i as int]);
            if chars_equal(&c, &xc) {
                found = true;
                break;
            }
            if lex_less(&xc, &c) {
                break;
            }
            proof {
                lemma_lex_total(c@, xc@);
            }
            i = i + 1;
        }
        let ghost fv = file@;
        let prev;
        if found {
            let (_, old_file) = files.remove(i);
            files.insert(i, (name, file));
            prev = Some(old_file);
            proof {
                let nf = files@.map_values(|e: (String, File)| entry_view(e));
                assert(nf =~= old_fs.update(i as int, (name@, fv)));
                assert(names(nf) =~= ns);
                lemma_lookup_at(old_fs, i as int);
                assert forall|k: Seq<char>| #[trigger]
                    lookup(nf, k) == if k == name@ {
                        Some(fv)
                    } else {
                        lookup(old_fs, k)
                    } by {
                    if k == name@ {
                        lemma_lookup_at(nf, i as int);
                    } else if exists|j: int| 0 <= j < old_fs.len() && #[trigger] old_fs[j].0 == k {
                        let j = choose|j: int| 0 <= j < old_fs.len() && #[trigger] old_fs[j].0 == k;
                        lemma_lookup_at(old_fs, j);
                        assert(j != i);
                        assert(nf[j] == old_fs[j]);
                        lemma_lookup_at(nf, j);
                    } else {
                        assert forall|j: int| 0 <= j < nf.len() implies #[trigger] nf[j].0 != k by {
                            if j != i {
                                assert(nf[j] == old_fs[j]);
                            }
                        }
                    }
                }
            }
        } else {
            files.insert(i, (name, file));
            prev = None;
            proof {
                let nf = files@.map_values(|e: (String, File)| entry_view(e));
                assert(nf =~= old_fs.insert(i as int, (name@, fv)));
                let nn = names(nf);
                assert(nn =~= ns.insert(i as int, name@));
                assert forall|k: int| i <= k < ns.len() implies lex_lt(name@, #[trigger] ns[k]) by {
                    if k > i {
                        assert(lex_lt(ns[i as int], ns[k]));
                        lemma_lex_transitive(name@, ns[i as int], ns[k]);
                    }
                }
                assert forall|a: int, b: int| 0 <= a < b < nn.len() implies #[trigger] lex_lt(
                    nn[a],
                    nn[b],
                ) by {
                    if b < i {
                        assert(nn[a] == ns[a] && nn[b] == ns[b]);
                    } else if b == i {
                        assert(nn[a] == ns[a]);
                    } else if a == i {
                        assert(nn[b] == ns[b - 1]);
                    } else if a < i {
                        assert(nn[a] == ns[a] && nn[b] == ns[b - 1]);
                        lemma_lex_transitive(ns[a], name@, ns[b - 1]);
                    } else {
                        assert(nn[a] == ns[a - 1] && nn[b] == ns[b - 1]);
                    }
                }
                assert forall|j: int| 0 <= j < old_fs.len() implies #[trigger] old_fs[j].0
                    != name@ by {
                    assert(ns[j] == old_fs[j].0);
                    if j < i {
                        assert(lex_lt(ns[j], name@));
                    } else {
                        assert(lex_lt(name@, ns[j]));
                    }
                    lemma_lex_irreflexive(name@);
                }
                assert forall|k: Seq<char>| #[trigger]
                    lookup(nf, k) == if k == name@ {
                        Some(fv)
                    } else {
                        lookup(old_fs, k)
                    } by {
                    if k == name@ {
                        lemma_lookup_at(nf, i as int);
                    } else if exists|j: int| 0 <= j < old_fs.len() && #[trigger] old_fs[j].0 == k {
                        let j = choose|j: int| 0 <= j < old_fs.len() && #[trigger] old_fs[j].0 == k;
                        lemma_lookup_at(old_fs, j);
                        if j < i {
                            assert(nf[j] == old_fs[j]);
                            lemma_lookup_at(nf, j);
                        } else {
                            assert(nf[j + 1] == old_fs[j]);
                            lemma_lookup_at(nf, j + 1);
                        }
                    } else {
                        assert forall|j: int| 0 <= j < nf.len() implies #[trigger] nf[j].0 != k by {
                            if j < i {
                                assert(nf[j] == old_fs[j]);
                            } else if j > i {
                                assert(nf[j] == old_fs[j - 1]);
                            }
                        }
                    }
                }
            }
        }
        self.files = files;
        prev
    }

    /// Whether two libraries have the same files.
    pub fn same_files(&self, other: &Library) -> (r: bool)
        ensures
            r == (self@.files == other@.files),
    {
        let ghost a = self@.files;
        let ghost b = other@.files;
        if self.files.len() != other.files.len() {
            assert(a.len() != b.len());
            return false;
        }
        let mut i: usize = 0;
        while i < self.files.len()
            invariant
                self.files.len() == other.files.len(),
                i <= self.files.len(),
                a == self@.files,
                b == other@.files,
                forall|k: int| 0 <= k < i ==> #[trigger] a[k] == b[k],
            decreases self.files.len() - i,
        {
            let same_name: bool = self.files[i].0.eq(&other.files[i].0);
            let same_file: bool = self.files[i].1.eq(&other.files[i].1);
            if !same_name || !same_file {
                assert(a[i as int] != b[i as int]);
                return false;
            }
            i = i + 1;
        }
        assert(a =~= b);
        true
    }

    /// Checks two libraries that must have the same files against each
    /// other, file by file.
    pub fn compare(&self, other: &Self)
        requires
            self@.files == other@.files,
    {
        let same = self.same_files(other);
        assert(same);
    }
}

impl Default for Library {
    fn default() -> (l: Self)
        ensures
            l@.files == Seq::<(Seq<char>, FileView)>::empty(),
            l@.link_name == Seq::<char>::empty(),
            l@.data == (DataView {
                name: None,
                extra_docs: Seq::empty(),
                has_additions: false,
                has_fixes: false,
                examples: Seq::empty(),
                gnustep_library: None,
            }),
    {
        let l = Library { files: Vec::new(), link_name: String::new(), data: LibraryData::default() };
        assert(l@.files =~= Seq::<(Seq<char>, FileView)>::empty());
        l
    }
}

} // verus!

verus! {

/// Documentation text made fit for a `//!` comment: trimmed, and with each
/// line break followed by the comment marker.
pub fn prepare_for_docs(s: &str) -> (r: String)
    ensures
        r@ == docs_text(s@),
{
    let v = chars_of(s);
    let t = trimmed(&v);
    let mut r = String::new();
    write_replaced(&mut r, &t, '\n', "\n//! ");
    assert(r@ =~= replace_char(trim(s@), '\n', "\n//! "@));
    r
}

/// Taking the inserted comment markers back out of prepared documentation
/// (replacing each `"\n//! "` by `"\n"`) gives back the trimmed text.
pub proof fn law_docs_round_trip(s: Seq<char>)
    ensures
        replace_str(docs_text(s), "\n//! "@, "\n"@) == trim(s),
{
    reveal_strlit("\n//! ");
    reveal_strlit("\n");
    let more = seq!['/', '/', '!', ' '];
    assert("\n//! "@ =~= seq!['\n'] + more);
    assert("\n"@ =~= seq!['\n']);
    lemma_replace_round_trip(trim(s), '\n', more);
}

} // verus!

verus! {

impl Library {
    /// The text of the module file (`mod.rs`).
    #[verifier::spinoff_prover]
    #[verifier::rlimit(40)]
    pub fn to_string(&self) -> (s: String)
        ensures
            s@ == library_text(self@),
    {
        let ghost v = self@;
        let name: &str = match &self.data.name {
            Some(n) => n.as_str(),
            None => self.link_name.as_str(),
        };
        assert(name@ == display_name(v));
        let mut s = String::new();
        write_header(&mut s, name);
        assert(s@ =~= header_text(display_name(v)));
        write_extra_docs(&mut s, &self.data);
        write_examples(&mut s, &self.data.examples);
        write_alias(&mut s, &self.data, self.link_name.as_str());
        s.append("\n");
        write_additions(&mut s, &self.data, name);
        s.append("\n");
        write_fixes(&mut s, &self.data, name);
        s.append("\n");
        write_link(&mut s, &self.data, self.link_name.as_str());
        s.append("\n");
        write_mods(&mut s, &self.files);
        s.append("\n");
        write_reexports(&mut s, &self.files);
        s
    }
}

} // verus!

verus! {

// ---------------------------------------------------------------------
// Laws
// ---------------------------------------------------------------------

/// Files kept in increasing order of name are determined by which file is
/// stored under which name: whatever order they were inserted in, two
/// such sequences that agree on every lookup are equal.
pub proof fn law_files_determined_by_lookup(
    a: Seq<(Seq<char>, FileView)>,
    b: Seq<(Seq<char>, FileView)>,
)
    requires
        strictly_sorted(names(a)),
        strictly_sorted(names(b)),
        forall|k: Seq<char>| #[trigger] lookup(a, k) == lookup(b, k),
    ensures
        a == b,
{
    let na = names(a);
    let nb = names(b);
    assert forall|x: Seq<char>| na.to_set().contains(x) <==> nb.to_set().contains(x) by {
        if na.contains(x) {
            let i = choose|i: int| 0 <= i < na.len() && na[i] == x;
            assert(a[i].0 == x);
            assert(has_name(a, x));
            assert(lookup(a, x) is Some);
            assert(lookup(b, x) is Some);
            assert(has_name(b, x));
            let j = position(b, x);
            assert(nb[j] == x);
        }
        if nb.contains(x) {
            let i = choose|i: int| 0 <= i < nb.len() && nb[i] == x;
            assert(b[i].0 == x);
            assert(has_name(b, x));
            assert(lookup(b, x) is Some);
            assert(lookup(a, x) is Some);
            assert(has_name(a, x));
            let j = position(a, x);
            assert(na[j] == x);
        }
    }
    assert(na.to_set() =~= nb.to_set());
    crate::sorted::lemma_sorted_unique(na, nb);
    assert forall|i: int| 0 <= i < a.len() implies a[i] == b[i] by {
        assert(na[i] == nb[i]);
        lemma_lookup_at(a, i);
        lemma_lookup_at(b, i);
        assert(lookup(a, a[i].0) == lookup(b, b[i].0));
    }
    assert(a =~= b);
}

/// The module text of a library depends only on which file is stored
/// under which name, its link name and its configuration: not on the
/// order in which the files were inserted.
pub proof fn law_text_depends_only_on_contents(a: LibraryView, b: LibraryView)
    requires
        Library::well_ordered(a),
        Library::well_ordered(b),
        forall|k: Seq<char>| #[trigger] lookup(a.files, k) == lookup(b.files, k),
        a.link_name == b.link_name,
        a.data == b.data,
    ensures
        library_text(a) == library_text(b),
{
    law_files_determined_by_lookup(a.files, b.files);
    assert(a == b);
}

} // verus!

verus! {

impl PartialEq for Example {
    fn eq(&self, other: &Example) -> (r: bool) {
        let same_name: bool = self.name.eq(&other.name);
        let same_description: bool = self.description.eq(&other.description);
        same_name && same_description
    }
}

impl vstd::std_specs::cmp::PartialEqSpecImpl for Example {
    open spec fn obeys_eq_spec() -> bool {
        true
    }

    open spec fn eq_spec(&self, other: &Example) -> bool {
        self@ == other@
    }
}

impl PartialEq for LibraryData {
    fn eq(&self, other: &LibraryData) -> (r: bool) {
        let ghost av = self@.examples;
        let ghost bv = other@.examples;
        if !opt_equal(&self.name, &other.name) || !opt_equal(
            &self.gnustep_library,
            &other.gnustep_library,
        ) || self.has_additions != other.has_additions || self.has_fixes != other.has_fixes {
            return false;
        }
        let same_docs: bool = self.extra_docs.eq(&other.extra_docs);
        if !same_docs {
            return false;
        }
        if self.examples.len() != other.examples.len() {
            assert(av.len() != bv.len());
            return false;
        }
        let mut i: usize = 0;
        while i < self.examples.len()
            invariant
                self.examples.len() == other.examples.len(),
                i <= self.examples.len(),
                av == self@.examples,
                bv == other@.examples,
                forall|k: int| 0 <= k < i ==> #[trigger] av[k] == bv[k],
            decreases self.examples.len() - i,
        {
            let same: bool = self.examples[i].eq(&other.examples[i]);
            if !same {
                assert(av[i as int] != bv[i as int]);
                return false;
            }
            i = i + 1;
        }
        assert(av =~= bv);
        true
    }
}

impl vstd::std_specs::cmp::PartialEqSpecImpl for LibraryData {
    open spec fn obeys_eq_spec() -> bool {
        true
    }

    open spec fn eq_spec(&self, other: &LibraryData) -> bool {
        self@ == other@
    }
}

impl PartialEq for Library {
    fn eq(&self, other: &Library) -> (r: bool) {
        let same_link: bool = self.link_name.eq(&other.link_name);
        let same_data: bool = self.data.eq(&other.data);
        same_link && same_data && self.same_files(other)
    }
}

impl vstd::std_specs::cmp::PartialEqSpecImpl for Library {
    open spec fn obeys_eq_spec() -> bool {
        true
    }

    open spec fn eq_spec(&self, other: &Library) -> bool {
        self@ == other@
    }
}

} // verus!
