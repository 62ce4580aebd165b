//! The text that `Formatter::debug_struct` and `Formatter::debug_tuple`
//! write, in the compact form (`{:?}`) and the pretty form (`{:#?}`), and
//! a builder that produces it.
use vstd::prelude::*;

use crate::text::{chars_of, lemma_occurs_trans, lemma_occurs_within, occurs, push_char};

verus! {

/// One field as `name: value`.
pub open spec fn field_entry(field: (Seq<char>, Seq<char>)) -> Seq<char> {
    field.0 + ": "@ + field.1
}

/// The fields, separated by `, `.
pub open spec fn field_list(fields: Seq<(Seq<char>, Seq<char>)>) -> Seq<char>
    decreases fields.len(),
{
    if fields.len() == 0 {
        Seq::empty()
    } else if fields.len() == 1 {
        field_entry(fields[0])
    } else {
        field_list(fields.drop_last()) + ", "@ + field_entry(fields.last())
    }
}

/// Whether text written after `s` starts a new line.
pub open spec fn at_line_start(s: Seq<char>) -> bool {
    s.len() == 0 || s.last() == '\n'
}

/// `s` with four spaces before every line, as the pretty form writes
/// nested values.
pub open spec fn indent(s: Seq<char>) -> Seq<char>
    decreases s.len(),
{
    if s.len() == 0 {
        Seq::empty()
    } else {
        indent(s.drop_last()) + (if at_line_start(s.drop_last()) {
            "    "@
        } else {
            Seq::empty()
        }) + seq![s.last()]
    }
}

/// One field in the pretty form: `name: value,` and a line break, indented.
pub open spec fn pretty_entry(field: (Seq<char>, Seq<char>)) -> Seq<char> {
    indent(field.0 + ": "@ + field.1 + ",\n"@)
}

/// The fields in the pretty form, one after the other.
pub open spec fn pretty_list(fields: Seq<(Seq<char>, Seq<char>)>) -> Seq<char>
    decreases fields.len(),
{
    if fields.len() == 0 {
        Seq::empty()
    } else {
        pretty_list(fields.drop_last()) + pretty_entry(fields.last())
    }
}

/// What has been written once the name and the given fields are in.
pub open spec fn opened_text(
    name: Seq<char>,
    fields: Seq<(Seq<char>, Seq<char>)>,
    pretty: bool,
) -> Seq<char> {
    if fields.len() == 0 {
        name
    } else if pretty {
        name + " {\n"@ + pretty_list(fields)
    } else {
        name + " { "@ + field_list(fields)
    }
}

/// The complete text of a struct whose fields are written as given.
///
/// Compact: `Name { a: x, b: y }`. Pretty: `Name {`, then each field
/// indented on a line of its own and followed by a comma, then `}`.
/// Without fields the text is `Name`. A struct marked non-exhaustive
/// shows `..` as its last entry, and is `Name { .. }` without fields.
pub open spec fn struct_text(
    name: Seq<char>,
    fields: Seq<(Seq<char>, Seq<char>)>,
    non_exhaustive: bool,
    pretty: bool,
) -> Seq<char> {
    if fields.len() == 0 {
        if non_exhaustive {
            name + " { .. }"@
        } else {
            name
        }
    } else if pretty {
        name + " {\n"@ + pretty_list(fields) + (if non_exhaustive {
            "    ..\n"@
        } else {
            Seq::empty()
        }) + "}"@
    } else if non_exhaustive {
        name + " { "@ + field_list(fields) + ", .. }"@
    } else {
        name + " { "@ + field_list(fields) + " }"@
    }
}

/// `Some(value)`, as `Option`'s `Debug` writes it.
pub open spec fn some_text(value: Seq<char>, pretty: bool) -> Seq<char> {
    if pretty {
        "Some(\n"@ + indent(value + ",\n"@) + ")"@
    } else {
        "Some("@ + value + ")"@
    }
}

proof fn lemma_indent_step(s: Seq<char>, c: char)
    ensures
        indent(s.push(c)) == indent(s) + (if at_line_start(s) {
            "    "@
        } else {
            Seq::empty()
        }) + seq![c],
{
    assert(s.push(c).drop_last() == s);
}

/// Appends `text` indented.
pub fn write_indented(buf: &mut String, text: &str)
    ensures
        final(buf)@ == old(buf)@ + indent(text@),
{
    let v = chars_of(text);
    let mut line_start = true;
    let mut i: usize = 0;
    assert(v@.take(0) =~= Seq::<char>::empty());
    while i < v.len()
        invariant
            i <= v.len(),
            v@ == text@,
            line_start == at_line_start(v@.take(i as int)),
            buf@ == old(buf)@ + indent(v@.take(i as int)),
        decreases v.len() - i,
    {
        let ghost pre = v@.take(i as int);
        assert(v@.take(i + 1) == pre.push(v@[i as int]));
        proof {
            lemma_indent_step(pre, v@[i as int]);
        }
        if line_start {
            buf.append("    ");
        }
        push_char(buf, v[i]);
        line_start = v[i] == '\n';
        assert(buf@ =~= old(buf)@ + indent(v@.take(i + 1)));
        i = i + 1;
    }
    assert(v@.take(v.len() as int) == v@);
}

/// Appends `Some(value)`.
pub fn write_some(buf: &mut String, value: &str, pretty: bool)
    ensures
        final(buf)@ == old(buf)@ + some_text(value@, pretty),
{
    let ghost start = buf@;
    if pretty {
        buf.append("Some(\n");
        let mut inner = String::new();
        inner.append(value);
        inner.append(",\n");
        assert(inner@ =~= value@ + ",\n"@);
        write_indented(buf, inner.as_str());
        buf.append(")");
    } else {
        buf.append("Some(");
        buf.append(value);
        buf.append(")");
    }
    assert(buf@ =~= start + some_text(value@, pretty));
}

/// A struct being written field by field.
pub struct DebugStruct {
    buf: String,
    has_fields: bool,
    pretty: bool,
    name: Ghost<Seq<char>>,
    fields: Ghost<Seq<(Seq<char>, Seq<char>)>>,
}

impl DebugStruct {
    pub closed spec fn name_view(&self) -> Seq<char> {
        self.name@
    }

    pub closed spec fn fields_view(&self) -> Seq<(Seq<char>, Seq<char>)> {
        self.fields@
    }

    pub closed spec fn is_pretty(&self) -> bool {
        self.pretty
    }

    pub closed spec fn wf(&self) -> bool {
        &&& self.buf@ == opened_text(self.name@, self.fields@, self.pretty)
        &&& self.has_fields == (self.fields@.len() > 0)
    }

    /// Starts a struct called `name`, in the pretty form if `pretty`.
    pub fn new(name: &str, pretty: bool) -> (d: DebugStruct)
        ensures
            d.wf(),
            d.name_view() == name@,
            d.is_pretty() == pretty,
            d.fields_view() == Seq::<(Seq<char>, Seq<char>)>::empty(),
    {
        let mut buf = String::new();
        buf.append(name);
        DebugStruct {
            buf,
            has_fields: false,
            pretty,
            name: Ghost(name@),
            fields: Ghost(Seq::empty()),
        }
    }

    /// Adds the field `name` whose value is written as `value`.
    pub fn field(&mut self, name: &str, value: &str)
        requires
            old(self).wf(),
        ensures
            final(self).wf(),
            final(self).name_view() == old(self).name_view(),
            final(self).is_pretty() == old(self).is_pretty(),
            final(self).fields_view() == old(self).fields_view().push((name@, value@)),
    {
        let ghost old_fields = self.fields@;
        let ghost entry = (name@, value@);
        let ghost old_buf = self.buf@;
        let ghost f = old_fields.push(entry);
        assert(f.drop_last() == old_fields);
        assert(f.last() == entry);
        if self.pretty {
            if !self.has_fields {
                self.buf.append(" {\n");
            }
            let mut line = String::new();
            line.append(name);
            line.append(": ");
            line.append(value);
            line.append(",\n");
            assert(line@ =~= name@ + ": "@ + value@ + ",\n"@);
            write_indented(&mut self.buf, line.as_str());
            proof {
                assert(pretty_list(f) == pretty_list(old_fields) + pretty_entry(entry));
                if old_fields.len() == 0 {
                    assert(pretty_list(old_fields) == Seq::<char>::empty());
                    assert(pretty_list(f) =~= pretty_entry(entry));
                    assert(self.buf@ =~= self.name@ + " {\n"@ + pretty_list(f));
                } else {
                    assert(self.buf@ =~= old_buf + pretty_entry(entry));
                    assert(opened_text(self.name@, f, true) =~= old_buf + pretty_entry(entry));
                }
            }
        } else {
            let ghost sep: Seq<char>;
            if !self.has_fields {
                self.buf.append(" { ");
                proof {
                    sep = " { "@;
                }
            } else {
                self.buf.append(", ");
                proof {
                    sep = ", "@;
                }
            }
            self.buf.append(name);
            self.buf.append(": ");
            self.buf.append(value);
            proof {
                assert(self.buf@ =~= old_buf + sep + field_entry(entry));
                if old_fields.len() == 0 {
                    assert(f.len() == 1);
                    assert(f[0] == entry);
                    assert(field_list(f) == field_entry(entry));
                } else {
                    assert(field_list(f) == field_list(old_fields) + ", "@ + field_entry(entry));
                    assert(opened_text(self.name@, f, false) =~= old_buf + sep + field_entry(
                        entry,
                    ));
                }
            }
        }
        self.fields = Ghost(f);
        self.has_fields = true;
    }

    /// Closes the struct.
    pub fn finish(self) -> (s: String)
        requires
            self.wf(),
        ensures
            s@ == struct_text(self.name_view(), self.fields_view(), false, self.is_pretty()),
    {
        let mut buf = self.buf;
        if self.has_fields {
            if self.pretty {
                buf.append("}");
            } else {
                buf.append(" }");
            }
        }
        buf
    }

    /// Closes the struct, marking that it has fields not shown.
    pub fn finish_non_exhaustive(self) -> (s: String)
        requires
            self.wf(),
        ensures
            s@ == struct_text(self.name_view(), self.fields_view(), true, self.is_pretty()),
    {
        let mut buf = self.buf;
        if self.has_fields {
            if self.pretty {
                buf.append("    ..\n");
                buf.append("}");
            } else {
                buf.append(", .. }");
            }
        } else {
            buf.append(" { .. }");
        }
        buf
    }
}

} // verus!

verus! {

// ---------------------------------------------------------------------
// Where a field shows
// ---------------------------------------------------------------------

/// How a field `name` with the value text `value` shows inside a struct:
/// `name: value` in the compact form, and in the pretty form the line
/// `name: value,` (and a line break) indented by four spaces, with every
/// further line of the value indented too.
pub open spec fn field_shown(name: Seq<char>, value: Seq<char>, pretty: bool) -> Seq<char> {
    if pretty {
        indent(name + ": "@ + value + ",\n"@)
    } else {
        name + ": "@ + value
    }
}

/// Text without line breaks, but for one at its end, is indented by four
/// spaces in front.
pub proof fn lemma_indent_one_line(s: Seq<char>)
    requires
        s.len() > 0,
        forall|i: int| 0 <= i < s.len() - 1 ==> s[i] != '\n',
    ensures
        indent(s) == "    "@ + s,
    decreases s.len(),
{
    if s.len() == 1 {
        assert(s.drop_last() =~= Seq::<char>::empty());
        assert(indent(s.drop_last()) == Seq::<char>::empty());
        assert(at_line_start(s.drop_last()));
        assert(indent(s) == indent(s.drop_last()) + "    "@ + seq![s.last()]);
        assert(s =~= seq![s.last()]);
        assert(indent(s) =~= "    "@ + s);
    } else {
        let d = s.drop_last();
        lemma_indent_one_line(d);
        assert(d.last() == s[s.len() - 2]);
        assert(!at_line_start(d));
        assert(indent(s) == indent(d) + Seq::<char>::empty() + seq![s.last()]);
        assert(s =~= d.push(s.last()));
        assert(indent(s) =~= "    "@ + s);
    }
}

proof fn lemma_field_list_occurs(fields: Seq<(Seq<char>, Seq<char>)>, i: int)
    requires
        0 <= i < fields.len(),
    ensures
        occurs(field_list(fields), field_entry(fields[i])),
    decreases fields.len(),
{
    let e = Seq::<char>::empty();
    if fields.len() == 1 {
        lemma_occurs_within(e, field_entry(fields[0]), e);
        assert(e + field_entry(fields[0]) + e =~= field_list(fields));
    } else if i == fields.len() - 1 {
        lemma_occurs_within(field_list(fields.drop_last()) + ", "@, field_entry(fields.last()), e);
        assert(field_list(fields.drop_last()) + ", "@ + field_entry(fields.last()) + e
            =~= field_list(fields));
    } else {
        lemma_field_list_occurs(fields.drop_last(), i);
        assert(fields.drop_last()[i] == fields[i]);
        lemma_occurs_within(e, field_list(fields.drop_last()), ", "@ + field_entry(fields.last()));
        assert(e + field_list(fields.drop_last()) + (", "@ + field_entry(fields.last()))
            =~= field_list(fields));
        lemma_occurs_trans(
            field_list(fields),
            field_list(fields.drop_last()),
            field_entry(fields[i]),
        );
    }
}

proof fn lemma_pretty_list_occurs(fields: Seq<(Seq<char>, Seq<char>)>, i: int)
    requires
        0 <= i < fields.len(),
    ensures
        occurs(pretty_list(fields), pretty_entry(fields[i])),
    decreases fields.len(),
{
    let e = Seq::<char>::empty();
    if i == fields.len() - 1 {
        lemma_occurs_within(pretty_list(fields.drop_last()), pretty_entry(fields.last()), e);
        assert(pretty_list(fields.drop_last()) + pretty_entry(fields.last()) + e
            =~= pretty_list(fields));
    } else {
        lemma_pretty_list_occurs(fields.drop_last(), i);
        assert(fields.drop_last()[i] == fields[i]);
        lemma_occurs_within(e, pretty_list(fields.drop_last()), pretty_entry(fields.last()));
        assert(e + pretty_list(fields.drop_last()) + pretty_entry(fields.last())
            =~= pretty_list(fields));
        lemma_occurs_trans(
            pretty_list(fields),
            pretty_list(fields.drop_last()),
            pretty_entry(fields[i]),
        );
    }
}

/// Every field of a struct shows in its text.
pub proof fn lemma_struct_shows_field(
    name: Seq<char>,
    fields: Seq<(Seq<char>, Seq<char>)>,
    non_exhaustive: bool,
    pretty: bool,
    i: int,
)
    requires
        0 <= i < fields.len(),
    ensures
        occurs(
            struct_text(name, fields, non_exhaustive, pretty),
            field_shown(fields[i].0, fields[i].1, pretty),
        ),
{
    let t = struct_text(name, fields, non_exhaustive, pretty);
    if pretty {
        lemma_pretty_list_occurs(fields, i);
        let tail = (if non_exhaustive {
            "    ..\n"@
        } else {
            Seq::<char>::empty()
        }) + "}"@;
        lemma_occurs_within(name + " {\n"@, pretty_list(fields), tail);
        assert(name + " {\n"@ + pretty_list(fields) + tail =~= t);
        lemma_occurs_trans(t, pretty_list(fields), pretty_entry(fields[i]));
    } else {
        lemma_field_list_occurs(fields, i);
        let tail = if non_exhaustive {
            ", .. }"@
        } else {
            " }"@
        };
        lemma_occurs_within(name + " { "@, field_list(fields), tail);
        assert(name + " { "@ + field_list(fields) + tail =~= t);
        lemma_occurs_trans(t, field_list(fields), field_entry(fields[i]));
    }
}

} // verus!
