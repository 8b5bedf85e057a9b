//! The findings as text, one finding per line.

use vstd::prelude::*;
use vstd::string::StringExecFns;

use crate::field_type::Type;
use crate::metadata::{Dialect, Metadata, Quote};

verus! {

/// `String::push`: appends the character to the end of the string.
pub assume_specification[ String::push ](s: &mut String, c: char)
    ensures
        final(s)@ == old(s)@.push(c),
;

/// The character of the decimal digit `d`.
pub open spec fn digit_char(d: nat) -> char {
    ((0x30 + d) as u8) as char
}

/// `n` in decimal digits, without leading zeros.
pub open spec fn decimal(n: nat) -> Seq<char>
    decreases n,
{
    if n < 10 {
        seq![digit_char(n)]
    } else {
        decimal(n / 10).push(digit_char(n % 10))
    }
}

/// A marker byte as the character with its code, or `none`.
pub open spec fn marker_text(marker: Option<u8>) -> Seq<char> {
    match marker {
        Some(b) => seq![b as char],
        None => "none"@,
    }
}

/// `true` or `false`.
pub open spec fn flag_text(flag: bool) -> Seq<char> {
    if flag {
        "true"@
    } else {
        "false"@
    }
}

/// The name of a type.
pub open spec fn type_label(t: Type) -> Seq<char> {
    match t {
        Type::Boolean => "Boolean"@,
        Type::Integer => "Integer"@,
        Type::Float => "Float"@,
        Type::Text => "Text"@,
    }
}

/// A line that says whether something holds.
pub open spec fn flag_line(label: Seq<char>, flag: bool) -> Seq<char> {
    label + flag_text(flag) + "\n"@
}

/// A line that names a marker byte.
pub open spec fn marker_line(label: Seq<char>, marker: Option<u8>) -> Seq<char> {
    label + marker_text(marker) + "\n"@
}

/// A line that gives a number.
pub open spec fn number_line(label: Seq<char>, n: nat) -> Seq<char> {
    label + decimal(n) + "\n"@
}

/// The line of one column: its index and its type.
pub open spec fn type_line(index: nat, t: Type) -> Seq<char> {
    "\t"@ + decimal(index) + ": "@ + type_label(t) + "\n"@
}

/// The report of a dialect: a heading and eight indented lines.
pub open spec fn dialect_report(d: Dialect) -> Seq<char> {
    "Dialect:\n"@ + marker_line("\tDelimiter: "@, Some(d.delimiter)) + flag_line(
        "\tHas header row?: "@,
        d.header.has_header_row,
    ) + number_line("\tNumber of preamble rows: "@, d.header.num_preamble_rows as nat)
        + marker_line("\tQuote character: "@, d.quote.byte()) + flag_line(
        "\tDouble-quote escapes?: "@,
        d.doublequote_escapes,
    ) + marker_line("\tEscape character: "@, d.escape.byte()) + marker_line(
        "\tComment character: "@,
        d.comment.byte(),
    ) + flag_line("\tFlexible: "@, d.flexible)
}

/// One indented line for each column: its index from 0 and its type.
pub open spec fn types_report(types: Seq<Type>) -> Seq<char>
    decreases types.len(),
{
    if types.len() == 0 {
        Seq::empty()
    } else {
        types_report(types.drop_last()) + type_line((types.len() - 1) as nat, types.last())
    }
}

/// The report of the metadata: the dialect, the number of fields and the types.
pub open spec fn metadata_report(dialect: Dialect, num_fields: nat, types: Seq<Type>) -> Seq<char> {
    "Metadata\n"@ + "========\n"@ + dialect_report(dialect) + "\n"@ + number_line(
        "Number of fields: "@,
        num_fields,
    ) + "Types:\n"@ + types_report(types)
}

fn push_decimal(s: &mut String, n: usize)
    ensures
        final(s)@ == old(s)@ + decimal(n as nat),
    decreases n,
{
    if n >= 10 {
        push_decimal(s, n / 10);
    }
    let d: u8 = (n % 10) as u8;
    s.push((0x30 + d) as char);
    assert(s@ =~= old(s)@ + decimal(n as nat));
}

fn push_marker(s: &mut String, marker: Option<u8>)
    ensures
        final(s)@ == old(s)@ + marker_text(marker),
{
    match marker {
        Some(b) => {
            s.push(b as char);
            assert(s@ =~= old(s)@ + marker_text(marker));
        },
        None => {
            s.append("none");
        },
    }
}

fn push_flag(s: &mut String, flag: bool)
    ensures
        final(s)@ == old(s)@ + flag_text(flag),
{
    if flag {
        s.append("true");
    } else {
        s.append("false");
    }
}

fn push_type(s: &mut String, t: Type)
    ensures
        final(s)@ == old(s)@ + type_label(t),
{
    match t {
        Type::Boolean => s.append("Boolean"),
        Type::Integer => s.append("Integer"),
        Type::Float => s.append("Float"),
        Type::Text => s.append("Text"),
    }
}


fn push_flag_line(s: &mut String, label: &str, flag: bool)
    ensures
        final(s)@ == old(s)@ + flag_line(label@, flag),
{
    s.append(label);
    push_flag(s, flag);
    s.append("\n");
    assert(s@ =~= old(s)@ + flag_line(label@, flag));
}

fn push_marker_line(s: &mut String, label: &str, marker: Option<u8>)
    ensures
        final(s)@ == old(s)@ + marker_line(label@, marker),
{
    s.append(label);
    push_marker(s, marker);
    s.append("\n");
    assert(s@ =~= old(s)@ + marker_line(label@, marker));
}

fn push_number_line(s: &mut String, label: &str, n: usize)
    ensures
        final(s)@ == old(s)@ + number_line(label@, n as nat),
{
    s.append(label);
    push_decimal(s, n);
    s.append("\n");
    assert(s@ =~= old(s)@ + number_line(label@, n as nat));
}

fn push_type_line(s: &mut String, index: usize, t: Type)
    ensures
        final(s)@ == old(s)@ + type_line(index as nat, t),
{
    s.append("\t");
    push_decimal(s, index);
    s.append(": ");
    push_type(s, t);
    s.append("\n");
    assert(s@ =~= old(s)@ + type_line(index as nat, t));
}

fn push_dialect(s: &mut String, d: &Dialect)
    ensures
        final(s)@ == old(s)@ + dialect_report(*d),
{
    let ghost start = s@;
    s.append("Dialect:\n");
    let ghost mut done = "Dialect:\n"@;
    push_marker_line(s, "\tDelimiter: ", Some(d.delimiter));
    proof {
        done = done + marker_line("\tDelimiter: "@, Some(d.delimiter));
        assert(s@ =~= start + done);
    }
    push_flag_line(s, "\tHas header row?: ", d.header.has_header_row);
    proof {
        done = done + flag_line("\tHas header row?: "@, d.header.has_header_row);
        assert(s@ =~= start + done);
    }
    push_number_line(s, "\tNumber of preamble rows: ", d.header.num_preamble_rows);
    proof {
        done = done + number_line(
            "\tNumber of preamble rows: "@,
            d.header.num_preamble_rows as nat,
        );
        assert(s@ =~= start + done);
    }
    let quote: Option<u8> = match d.quote {
        Quote::Enabled(q) => Some(q),
        Quote::Disabled => None,
    };
    push_marker_line(s, "\tQuote character: ", quote);
    proof {
        done = done + marker_line("\tQuote character: "@, d.quote.byte());
        assert(s@ =~= start + done);
    }
    push_flag_line(s, "\tDouble-quote escapes?: ", d.doublequote_escapes);
    proof {
        done = done + flag_line("\tDouble-quote escapes?: "@, d.doublequote_escapes);
        assert(s@ =~= start + done);
    }
    push_marker_line(s, "\tEscape character: ", Option::<u8>::from(d.escape));
    proof {
        done = done + marker_line("\tEscape character: "@, d.escape.byte());
        assert(s@ =~= start + done);
    }
    push_marker_line(s, "\tComment character: ", Option::<u8>::from(d.comment));
    proof {
        done = done + marker_line("\tComment character: "@, d.comment.byte());
        assert(s@ =~= start + done);
    }
    push_flag_line(s, "\tFlexible: ", d.flexible);
    proof {
        done = done + flag_line("\tFlexible: "@, d.flexible);
        assert(s@ =~= start + done);
        assert(done == dialect_report(*d));
    }
}

fn push_types(s: &mut String, types: &Vec<Type>)
    ensures
        final(s)@ == old(s)@ + types_report(types@),
{
    let mut i: usize = 0;
    assert(s@ =~= old(s)@ + types_report(types@.take(0)));
    while i < types.len()
        invariant
            i <= types@.len(),
            s@ == old(s)@ + types_report(types@.take(i as int)),
        decreases types@.len() - i,
    {
        push_type_line(s, i, types[i]);
        proof {
            let grown = types@.take(i + 1);
            assert(grown.drop_last() =~= types@.take(i as int));
            assert(grown.last() == types@[i as int]);
            assert(s@ =~= old(s)@ + types_report(grown));
        }
        i += 1;
    }
    assert(types@.take(i as int) =~= types@);
}

impl Dialect {
    /// The dialect as text, one finding per line.
    pub fn report(&self) -> (text: String)
        ensures
            text@ == dialect_report(*self),
    {
        let mut text = String::new();
        push_dialect(&mut text, self);
        assert(text@ =~= dialect_report(*self));
        text
    }
}

impl Metadata {
    /// The metadata as text: the dialect, the number of fields, and the
    /// type of each column on a line of its own, numbered from 0.
    pub fn report(&self) -> (text: String)
        ensures
            text@ == metadata_report(self.dialect, self.num_fields as nat, self.types@),
    {
        let mut text = String::new();
        text.append("Metadata\n");
        text.append("========\n");
        let ghost mut done = "Metadata\n"@ + "========\n"@;
        assert(text@ =~= done);
        push_dialect(&mut text, &self.dialect);
        text.append("\n");
        proof {
            done = done + dialect_report(self.dialect) + "\n"@;
            assert(text@ =~= done);
        }
        push_number_line(&mut text, "Number of fields: ", self.num_fields);
        text.append("Types:\n");
        proof {
            done = done + number_line("Number of fields: "@, self.num_fields as nat) + "Types:\n"@;
            assert(text@ =~= done);
        }
        push_types(&mut text, &self.types);
        text
    }
}

} // verus!
