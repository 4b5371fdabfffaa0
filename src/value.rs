use vstd::prelude::*;

verus! {

/// A GraphQL input value, as a query or a resolver writes it.
#[derive(Debug)]
pub enum Value {
    Null,
    Boolean(bool),
    Int(i64),
    /// A floating-point literal, kept as its decimal text.
    Float(String),
    String(String),
    /// An enum value, by name.
    Enum(String),
    List(Vec<Value>),
    /// Named fields in the order written.
    Object(Vec<(String, Value)>),
    /// A reference to a variable, by name.
    Variable(String),
}

/// The decimal digit `d`.
pub open spec fn digit_char(d: nat) -> char {
    if d == 0 { '0' } else if d == 1 { '1' } else if d == 2 { '2' } else if d == 3 { '3' }
    else if d == 4 { '4' } else if d == 5 { '5' } else if d == 6 { '6' } else if d == 7 { '7' }
    else if d == 8 { '8' } else { '9' }
}

/// The decimal text of a natural number, without leading zeros.
pub open spec fn nat_text(n: nat) -> Seq<char>
    decreases n,
{
    if n < 10 {
        seq![digit_char(n)]
    } else {
        nat_text(n / 10).push(digit_char(n % 10))
    }
}

/// The decimal text of an integer, with a leading `-` when negative.
pub open spec fn int_text(i: int) -> Seq<char> {
    if i < 0 {
        seq!['-'] + nat_text((-i) as nat)
    } else {
        nat_text(i as nat)
    }
}

/// How one character is written inside a quoted string.
pub open spec fn escape_char(c: char) -> Seq<char> {
    if c == '"' {
        seq!['\\', '"']
    } else if c == '\\' {
        seq!['\\', '\\']
    } else if c == '\n' {
        seq!['\\', 'n']
    } else if c == '\r' {
        seq!['\\', 'r']
    } else if c == '\t' {
        seq!['\\', 't']
    } else {
        seq![c]
    }
}

/// The characters of a string, escaped.
pub open spec fn escape_text(s: Seq<char>) -> Seq<char>
    decreases s.len(),
{
    if s.len() == 0 {
        Seq::empty()
    } else {
        escape_text(s.drop_last()) + escape_char(s.last())
    }
}

/// A string as a quoted GraphQL literal.
pub open spec fn quoted_text(s: Seq<char>) -> Seq<char> {
    seq!['"'] + escape_text(s) + seq!['"']
}

/// The textual form of a value, as GraphQL writes it.
pub open spec fn value_text(v: Value) -> Seq<char>
    decreases v,
{
    match v {
        Value::Null => seq!['n', 'u', 'l', 'l'],
        Value::Boolean(b) => if b {
            seq!['t', 'r', 'u', 'e']
        } else {
            seq!['f', 'a', 'l', 's', 'e']
        },
        Value::Int(i) => int_text(i as int),
        Value::Float(t) => t@,
        Value::String(s) => quoted_text(s@),
        Value::Enum(n) => n@,
        Value::List(items) => seq!['['] + items_text(items@) + seq![']'],
        Value::Object(fields) => seq!['{'] + fields_text(fields@) + seq!['}'],
        Value::Variable(n) => seq!['$'] + n@,
    }
}

/// The values of a list, separated by `, `.
pub open spec fn items_text(vs: Seq<Value>) -> Seq<char>
    decreases vs,
{
    if vs.len() == 0 {
        Seq::empty()
    } else {
        let last = value_text(vs.last());
        if vs.len() == 1 {
            last
        } else {
            items_text(vs.drop_last()) + seq![',', ' '] + last
        }
    }
}

/// The fields of an object as `name: value`, separated by `, `.
pub open spec fn fields_text(fs: Seq<(String, Value)>) -> Seq<char>
    decreases fs,
{
    if fs.len() == 0 {
        Seq::empty()
    } else {
        let last = fs.last().0@ + seq![':', ' '] + value_text(fs.last().1);
        if fs.len() == 1 {
            last
        } else {
            fields_text(fs.drop_last()) + seq![',', ' '] + last
        }
    }
}

/// Relies on `String::push`: the character is appended.
#[verifier::external_body]
fn push_char(s: &mut String, c: char)
    ensures
        final(s)@ == old(s)@.push(c),
{
    s.push(c);
}

/// The digit character for `d`.
fn digit(d: u64) -> (c: char)
    requires
        d < 10,
    ensures
        c == digit_char(d as nat),
{
    if d == 0 { '0' } else if d == 1 { '1' } else if d == 2 { '2' } else if d == 3 { '3' }
    else if d == 4 { '4' } else if d == 5 { '5' } else if d == 6 { '6' } else if d == 7 { '7' }
    else if d == 8 { '8' } else { '9' }
}

/// Appends the decimal text of `n`.
fn write_nat(n: u64, out: &mut String)
    ensures
        final(out)@ == old(out)@ + nat_text(n as nat),
    decreases n,
{
    if n < 10 {
        push_char(out, digit(n));
        assert(final(out)@ =~= old(out)@ + nat_text(n as nat));
    } else {
        write_nat(n / 10, out);
        push_char(out, digit(n % 10));
        assert(final(out)@ =~= old(out)@ + nat_text(n as nat));
    }
}

/// Appends the decimal text of `i`.
fn write_int(i: i64, out: &mut String)
    ensures
        final(out)@ == old(out)@ + int_text(i as int),
{
    if i < 0 {
        push_char(out, '-');
        let m: u64 = if i == i64::MIN { 9223372036854775808u64 } else { (-i) as u64 };
        write_nat(m, out);
        assert(final(out)@ =~= old(out)@ + int_text(i as int));
    } else {
        write_nat(i as u64, out);
    }
}

/// Appends `s` as a quoted, escaped literal.
fn write_quoted(s: &str, out: &mut String)
    ensures
        final(out)@ == old(out)@ + quoted_text(s@),
{
    push_char(out, '"');
    let n = s.unicode_len();
    let mut i: usize = 0;
    while i < n
        invariant
            i <= n,
            n == s@.len(),
            out@ == old(out)@ + seq!['"'] + escape_text(s@.take(i as int)),
        decreases n - i,
    {
        let c = s.get_char(i);
        if c == '"' {
            push_char(out, '\\');
            push_char(out, '"');
        } else if c == '\\' {
            push_char(out, '\\');
            push_char(out, '\\');
        } else if c == '\n' {
            push_char(out, '\\');
            push_char(out, 'n');
        } else if c == '\r' {
            push_char(out, '\\');
            push_char(out, 'r');
        } else if c == '\t' {
            push_char(out, '\\');
            push_char(out, 't');
        } else {
            push_char(out, c);
        }
        assert(s@.take(i + 1).drop_last() =~= s@.take(i as int));
        assert(out@ =~= old(out)@ + seq!['"'] + escape_text(s@.take(i + 1)));
        i = i + 1;
    }
    assert(s@.take(n as int) =~= s@);
    push_char(out, '"');
    assert(out@ =~= old(out)@ + quoted_text(s@));
}

/// Appends the textual form of `v`.
pub fn write_value(v: &Value, out: &mut String)
    ensures
        final(out)@ == old(out)@ + value_text(*v),
    decreases v,
{
    match v {
        Value::Null => {
            push_char(out, 'n');
            push_char(out, 'u');
            push_char(out, 'l');
            push_char(out, 'l');
            assert(final(out)@ =~= old(out)@ + value_text(*v));
        },
        Value::Boolean(b) => {
            if *b {
                push_char(out, 't');
                push_char(out, 'r');
                push_char(out, 'u');
                push_char(out, 'e');
            } else {
                push_char(out, 'f');
                push_char(out, 'a');
                push_char(out, 'l');
                push_char(out, 's');
                push_char(out, 'e');
            }
            assert(final(out)@ =~= old(out)@ + value_text(*v));
        },
        Value::Int(i) => write_int(*i, out),
        Value::Float(t) => out.append(t.as_str()),
        Value::String(s) => write_quoted(s.as_str(), out),
        Value::Enum(n) => out.append(n.as_str()),
        Value::Variable(n) => {
            push_char(out, '$');
            out.append(n.as_str());
            assert(final(out)@ =~= old(out)@ + value_text(*v));
        },
        Value::List(items) => {
            push_char(out, '[');
            assert(decreases_to!(*v => *items));
            let ghost start = out@;
            let n = items.len();
            let mut i: usize = 0;
            while i < n
                invariant
                    i <= n,
                    n == items@.len(),
                    out@ == start + items_text(items@.take(i as int)),
                    decreases_to!(*v => *items),
                decreases n - i,
            {
                if i > 0 {
                    push_char(out, ',');
                    push_char(out, ' ');
                }
                proof {
                    vstd::std_specs::vec::axiom_vec_index_decreases(*items, i as int);
                    assert(decreases_to!(*v => items[i as int]));
                }
                write_value(&items[i], out);
                assert(items@.take(i + 1).drop_last() =~= items@.take(i as int));
                assert(out@ =~= start + items_text(items@.take(i + 1)));
                i = i + 1;
            }
            assert(items@.take(n as int) =~= items@);
            push_char(out, ']');
            assert(final(out)@ =~= old(out)@ + value_text(*v));
        },
        Value::Object(fields) => {
            push_char(out, '{');
            assert(decreases_to!(*v => *fields));
            let ghost start = out@;
            let n = fields.len();
            let mut i: usize = 0;
            while i < n
                invariant
                    i <= n,
                    n == fields@.len(),
                    out@ == start + fields_text(fields@.take(i as int)),
                    decreases_to!(*v => *fields),
                decreases n - i,
            {
                if i > 0 {
                    push_char(out, ',');
                    push_char(out, ' ');
                }
                out.append(fields[i].0.as_str());
                push_char(out, ':');
                push_char(out, ' ');
                proof {
                    vstd::std_specs::vec::axiom_vec_index_decreases(*fields, i as int);
                    assert(decreases_to!(fields[i as int] => fields[i as int].1));
                    assert(decreases_to!(*v => fields[i as int].1));
                }
                write_value(&fields[i].1, out);
                assert(fields@.take(i + 1).drop_last() =~= fields@.take(i as int));
                assert(out@ =~= start + fields_text(fields@.take(i + 1)));
                i = i + 1;
            }
            assert(fields@.take(n as int) =~= fields@);
            push_char(out, '}');
            assert(final(out)@ =~= old(out)@ + value_text(*v));
        },
    }
}

impl Value {
    /// The textual form of the value, as GraphQL writes it.
    pub fn to_text(&self) -> (r: String)
        ensures
            r@ == value_text(*self),
    {
        let mut out = String::new();
        write_value(self, &mut out);
        assert(out@ =~= value_text(*self));
        out
    }
}

/// An error raised while resolving a field.
#[derive(Debug)]
pub struct Error {
    pub message: String,
}

impl Error {
    /// An error with the given message.
    pub fn new(message: &str) -> (r: Error)
        ensures
            r.message@ == message@,
    {
        Error { message: String::from_str(message) }
    }
}

} // verus!
