//! The textual form of a backend row, and the way back.
//!
//! A row becomes one string. Each column is written as a field: a tag
//! character that tells the kind of value, then the value. Fields are
//! separated by a comma; inside a field a comma or a backslash is preceded
//! by a backslash, so the separator never occurs unescaped in a value.
//!
//! | value            | field                                         |
//! |------------------|-----------------------------------------------|
//! | null             | `n`                                           |
//! | integer          | `i`, then the integer in base ten             |
//! | floating point   | `f`, then its 64-bit pattern in base ten      |
//! | text             | `t`, then the text                            |
//!
//! Integers and text come back exactly. A floating-point value travels as
//! the bit pattern of its IEEE 754 double-precision form, so it comes back
//! bit for bit: signed zeros and the payload of a NaN are kept.

use vstd::prelude::*;
use crate::data_serialization::{text_of, Consumable, DataFormat};
use crate::decimal::{
    decimal, integer_text, integer_within, lemma_decimal_round_trip, lemma_integer_round_trip,
    number_up_to, push_decimal, push_integer, read_decimal, read_integer,
};
use crate::text::{chars_of, joined, lemma_joined_front, string_of};

verus! {

/// Stands between two fields of a row.
pub const SEPARATOR: char = ',';

/// Stands before a separator or an escape character that belongs to a value.
pub const ESCAPE: char = '\\';

/// One column of a backend row, as plain data.
#[derive(Debug, PartialEq, Eq)]
pub enum NativeValue {
    /// The column holds no value.
    Null,
    /// A whole number.
    Integer(i64),
    /// A floating-point number, given by the bits of its double-precision
    /// form.
    Float(u64),
    /// Text.
    Text(String),
    /// A value of a kind that has no textual form here.
    Undecodable,
}

/// A backend row: its columns in order.
pub type NativeRow = Vec<NativeValue>;

/// What a [`NativeValue`] holds.
pub enum Value {
    Null,
    Integer(i64),
    Float(u64),
    Text(Seq<char>),
    Undecodable,
}

impl View for NativeValue {
    type V = Value;

    open spec fn view(&self) -> Value {
        match self {
            NativeValue::Null => Value::Null,
            NativeValue::Integer(v) => Value::Integer(*v),
            NativeValue::Float(bits) => Value::Float(*bits),
            NativeValue::Text(text) => Value::Text(text@),
            NativeValue::Undecodable => Value::Undecodable,
        }
    }
}

impl Clone for NativeValue {
    fn clone(&self) -> (copy: NativeValue)
        ensures
            copy@ == self@,
    {
        match self {
            NativeValue::Null => NativeValue::Null,
            NativeValue::Integer(v) => NativeValue::Integer(*v),
            NativeValue::Float(bits) => NativeValue::Float(*bits),
            NativeValue::Text(text) => NativeValue::Text(text.clone()),
            NativeValue::Undecodable => NativeValue::Undecodable,
        }
    }
}

/// What the columns of a row hold, in order.
pub open spec fn values_of(row: Seq<NativeValue>) -> Seq<Value> {
    Seq::new(row.len(), |i: int| row[i]@)
}

/// What the rows of a dataset hold, in order.
pub open spec fn dataset_of(rows: Seq<NativeRow>) -> Seq<Seq<Value>> {
    Seq::new(rows.len(), |i: int| values_of(rows[i]@))
}

/// Whether every column of `row` has a textual form.
pub open spec fn encodable(row: Seq<Value>) -> bool {
    forall|i: int| 0 <= i < row.len() ==> !((#[trigger] row[i]) is Undecodable)
}

/// Whether every row of `rows` can be written.
pub open spec fn all_encodable(rows: Seq<Seq<Value>>) -> bool {
    forall|i: int| 0 <= i < rows.len() ==> encodable(#[trigger] rows[i])
}

/// Whether `row`, `column` is the first place of `rows`, going row by row
/// and through each row from the left, that holds a value without a textual
/// form.
pub open spec fn first_undecodable(rows: Seq<Seq<Value>>, row: int, column: int) -> bool {
    &&& 0 <= row < rows.len()
    &&& 0 <= column < rows[row].len()
    &&& rows[row][column] is Undecodable
    &&& all_encodable(rows.take(row))
    &&& encodable(rows[row].take(column))
}

/// `c` as it appears inside a field.
pub open spec fn escaped_char(c: char) -> Seq<char> {
    if c == SEPARATOR || c == ESCAPE {
        seq![ESCAPE, c]
    } else {
        seq![c]
    }
}

/// `text` as it appears inside a field.
pub open spec fn escaped(text: Seq<char>) -> Seq<char>
    decreases text.len(),
{
    if text.len() == 0 {
        Seq::empty()
    } else {
        escaped_char(text[0]) + escaped(text.skip(1))
    }
}

/// The field for `value`, before escaping: the tag, then the value.
pub open spec fn field_of(value: Value) -> Seq<char> {
    match value {
        Value::Null => seq!['n'],
        Value::Integer(v) => seq!['i'] + integer_text(v as int),
        Value::Float(bits) => seq!['f'] + decimal(bits as nat),
        Value::Text(text) => seq!['t'] + text,
        Value::Undecodable => Seq::empty(),
    }
}

/// The fields of `row`, escaped.
pub open spec fn escaped_fields(row: Seq<Value>) -> Seq<Seq<char>> {
    Seq::new(row.len(), |i: int| escaped(field_of(row[i])))
}

/// The string for `row`: its escaped fields with a separator between
/// neighbours. A row without columns is the empty string.
pub open spec fn row_text(row: Seq<Value>) -> Seq<char> {
    joined(escaped_fields(row), seq![SEPARATOR])
}

/// Splits `text` at its unescaped separators and removes the escapes.
/// `current` holds the part of the first field that was read before `text`.
/// `None` when `text` ends in the middle of an escape.
pub open spec fn scan(text: Seq<char>, current: Seq<char>) -> Option<Seq<Seq<char>>>
    decreases text.len(),
{
    if text.len() == 0 {
        Some(seq![current])
    } else if text[0] == ESCAPE {
        if text.len() < 2 {
            None
        } else {
            scan(text.skip(2), current.push(text[1]))
        }
    } else if text[0] == SEPARATOR {
        with_front(seq![current], scan(text.skip(1), Seq::empty()))
    } else {
        scan(text.skip(1), current.push(text[0]))
    }
}

/// `rest` with `front` put before it.
pub open spec fn with_front(front: Seq<Seq<char>>, rest: Option<Seq<Seq<char>>>) -> Option<
    Seq<Seq<char>>,
> {
    match rest {
        Some(fields) => Some(front + fields),
        None => None,
    }
}

/// The fields of an encoded row, unescaped. The empty string has no field.
pub open spec fn fields_of(text: Seq<char>) -> Option<Seq<Seq<char>>> {
    if text.len() == 0 {
        Some(Seq::empty())
    } else {
        scan(text, Seq::empty())
    }
}

/// The value that an unescaped field denotes.
pub open spec fn value_of(field: Seq<char>) -> Option<Value> {
    if field.len() == 0 {
        None
    } else if field[0] == 'n' {
        if field.len() == 1 {
            Some(Value::Null)
        } else {
            None
        }
    } else if field[0] == 'i' {
        match integer_within(field.skip(1), i64::MIN as int, i64::MAX as int) {
            Some(v) => Some(Value::Integer(v as i64)),
            None => None,
        }
    } else if field[0] == 'f' {
        match number_up_to(field.skip(1), u64::MAX as nat) {
            Some(bits) => Some(Value::Float(bits as u64)),
            None => None,
        }
    } else if field[0] == 't' {
        Some(Value::Text(field.skip(1)))
    } else {
        None
    }
}

/// The values that `fields` denote, if each of them denotes one.
pub open spec fn values_of_fields(fields: Seq<Seq<char>>) -> Option<Seq<Value>> {
    if forall|i: int| 0 <= i < fields.len() ==> (#[trigger] value_of(fields[i])) is Some {
        Some(Seq::new(fields.len(), |i: int| value_of(fields[i])->Some_0))
    } else {
        None
    }
}

/// The row that `text` denotes, if it denotes one.
pub open spec fn row_of(text: Seq<char>) -> Option<Seq<Value>> {
    match fields_of(text) {
        Some(fields) => values_of_fields(fields),
        None => None,
    }
}

/// The character sequences that `fields` hold.
pub open spec fn lines_of(fields: Seq<Vec<char>>) -> Seq<Seq<char>> {
    Seq::new(fields.len(), |i: int| fields[i]@)
}

/// Escaping works character by character.
pub proof fn lemma_escaped_push(text: Seq<char>, c: char)
    ensures
        escaped(text.push(c)) == escaped(text) + escaped_char(c),
    decreases text.len(),
{
    let longer = text.push(c);
    if text.len() == 0 {
        assert(longer.skip(1).len() == 0);
        assert(escaped(longer.skip(1)).len() == 0);
        assert(escaped(longer) == escaped_char(c) + escaped(longer.skip(1)));
    } else {
        lemma_escaped_push(text.skip(1), c);
        assert(longer.skip(1) == text.skip(1).push(c));
        assert(longer[0] == text[0]);
        assert(escaped(longer) == escaped_char(text[0]) + escaped(longer.skip(1)));
        assert(escaped(longer) == escaped_char(text[0]) + (escaped(text.skip(1)) + escaped_char(
            c,
        )));
        assert(escaped(longer) == (escaped_char(text[0]) + escaped(text.skip(1))) + escaped_char(
            c,
        ));
    }
}

/// Scanning an escaped field that is followed by the end of the row or by a
/// separator reads exactly that field.
pub proof fn lemma_scan_field(field: Seq<char>, tail: Seq<char>, current: Seq<char>)
    requires
        tail.len() == 0 || tail[0] == SEPARATOR,
    ensures
        scan(escaped(field) + tail, current) == scan(tail, current + field),
    decreases field.len(),
{
    let text = escaped(field) + tail;
    if field.len() == 0 {
        assert(text == tail);
        assert(current + field == current);
    } else {
        let c = field[0];
        let rest = field.skip(1);
        let after = escaped(rest) + tail;
        lemma_scan_field(rest, tail, current.push(c));
        assert(current.push(c) + rest == current + field);
        assert(text == escaped_char(c) + after);
        if c == SEPARATOR || c == ESCAPE {
            assert(text[0] == ESCAPE);
            assert(text[1] == c);
            assert(text.skip(2) == after);
        } else {
            assert(text[0] == c);
            assert(text.skip(1) == after);
        }
    }
}

/// Scanning an encoded row of at least one field gives its fields back.
pub proof fn lemma_scan_fields(fields: Seq<Seq<char>>)
    requires
        fields.len() >= 1,
    ensures
        scan(
            joined(Seq::new(fields.len(), |i: int| escaped(fields[i])), seq![SEPARATOR]),
            Seq::empty(),
        ) == Some(fields),
    decreases fields.len(),
{
    let encoded = Seq::new(fields.len(), |i: int| escaped(fields[i]));
    let separator = seq![SEPARATOR];
    let nothing = Seq::<char>::empty();
    if fields.len() == 1 {
        assert(joined(encoded, separator) == escaped(fields[0]));
        lemma_scan_field(fields[0], nothing, nothing);
        assert(escaped(fields[0]) + nothing == escaped(fields[0]));
        assert(nothing + fields[0] == fields[0]);
        assert(scan(nothing, fields[0]) == Some(seq![fields[0]]));
        assert(seq![fields[0]] == fields);
    } else {
        let later = fields.skip(1);
        let later_encoded = Seq::new(later.len(), |i: int| escaped(later[i]));
        assert(encoded.skip(1) == later_encoded);
        lemma_joined_front(encoded, separator);
        lemma_scan_fields(later);
        let tail = separator + joined(later_encoded, separator);
        assert(joined(encoded, separator) == escaped(fields[0]) + tail);
        assert(tail[0] == SEPARATOR);
        lemma_scan_field(fields[0], tail, nothing);
        assert(nothing + fields[0] == fields[0]);
        assert(tail.skip(1) == joined(later_encoded, separator));
        assert(scan(tail, fields[0]) == with_front(seq![fields[0]], scan(tail.skip(1), nothing)));
        assert(seq![fields[0]] + later == fields);
    }
}

/// The field written for a value denotes that value.
pub proof fn lemma_field_round_trip(value: Value)
    requires
        !(value is Undecodable),
    ensures
        field_of(value).len() > 0,
        value_of(field_of(value)) == Some(value),
{
    let field = field_of(value);
    match value {
        Value::Null => {},
        Value::Integer(v) => {
            lemma_integer_round_trip(v as int);
            assert(field.skip(1) == integer_text(v as int));
        },
        Value::Float(bits) => {
            lemma_decimal_round_trip(bits as nat);
            assert(field.skip(1) == decimal(bits as nat));
        },
        Value::Text(text) => {
            assert(field.skip(1) == text);
        },
        Value::Undecodable => {},
    }
}

/// An encoded row with at least one column is not the empty string.
pub proof fn lemma_row_text_not_empty(row: Seq<Value>)
    requires
        row.len() >= 1,
        encodable(row),
    ensures
        row_text(row).len() > 0,
{
    let encoded = escaped_fields(row);
    let last = row.last();
    lemma_field_round_trip(last);
    assert(encoded.last() == escaped(field_of(last)));
    assert(escaped(field_of(last)) == escaped_char(field_of(last)[0]) + escaped(
        field_of(last).skip(1),
    ));
    assert(encoded.last().len() > 0);
    if row.len() > 1 {
        assert(row_text(row) == joined(encoded.drop_last(), seq![SEPARATOR]) + seq![SEPARATOR]
            + encoded.last());
    }
}

/// Decoding an encoded row gives the row back: every null, integer,
/// floating-point pattern and text is recovered exactly, in its column.
pub proof fn lemma_row_round_trip(row: Seq<Value>)
    requires
        encodable(row),
    ensures
        row_of(row_text(row)) == Some(row),
{
    if row.len() == 0 {
        assert(row_text(row).len() == 0);
        assert(values_of_fields(Seq::empty()) == Some(Seq::<Value>::empty()));
        assert(row == Seq::<Value>::empty());
    } else {
        let fields = Seq::new(row.len(), |i: int| field_of(row[i]));
        assert(escaped_fields(row) == Seq::new(fields.len(), |i: int| escaped(fields[i])));
        lemma_scan_fields(fields);
        lemma_row_text_not_empty(row);
        assert(fields_of(row_text(row)) == Some(fields));
        assert forall|i: int| 0 <= i < fields.len() implies (#[trigger] value_of(fields[i]))
            == Some(row[i]) by {
            lemma_field_round_trip(row[i]);
        }
        assert(Seq::new(fields.len(), |i: int| value_of(fields[i])->Some_0) == row);
    }
}

/// The strings for `rows`: one per row, in order.
pub open spec fn dataset_text(rows: Seq<Seq<Value>>) -> Seq<Seq<char>> {
    Seq::new(rows.len(), |i: int| row_text(rows[i]))
}

/// A dataset has at most one first place without a textual form.
pub proof fn lemma_first_undecodable_unique(
    rows: Seq<Seq<Value>>,
    row: int,
    column: int,
    other_row: int,
    other_column: int,
)
    requires
        first_undecodable(rows, row, column),
        first_undecodable(rows, other_row, other_column),
    ensures
        row == other_row,
        column == other_column,
{
    if row < other_row {
        assert(rows.take(other_row)[row] == rows[row]);
        assert(encodable(rows[row]));
    } else if other_row < row {
        assert(rows.take(row)[other_row] == rows[other_row]);
        assert(encodable(rows[other_row]));
    } else if column < other_column {
        assert(rows[row].take(other_column)[column] == rows[row][column]);
    } else if other_column < column {
        assert(rows[row].take(column)[other_column] == rows[row][other_column]);
    }
}

/// A dataset has a first place without a textual form exactly when not all
/// of it can be written.
pub proof fn lemma_first_undecodable_excludes(rows: Seq<Seq<Value>>, row: int, column: int)
    requires
        first_undecodable(rows, row, column),
    ensures
        !all_encodable(rows),
{
    assert(!encodable(rows[row]));
}

/// Rows that are written alike are the same row: the separator and the
/// escapes lose nothing.
pub proof fn lemma_row_text_injective(first: Seq<Value>, second: Seq<Value>)
    requires
        encodable(first),
        encodable(second),
        row_text(first) == row_text(second),
    ensures
        first == second,
{
    lemma_row_round_trip(first);
    lemma_row_round_trip(second);
}

/// The rows that `entries` denote when they are read as `format`, if each of
/// them denotes a row.
pub open spec fn rows_of(entries: Seq<Seq<char>>, format: DataFormat) -> Option<Seq<Seq<Value>>> {
    match format {
        DataFormat::CSV => if forall|i: int|
            0 <= i < entries.len() ==> (#[trigger] row_of(entries[i])) is Some {
            Some(Seq::new(entries.len(), |i: int| row_of(entries[i])->Some_0))
        } else {
            None
        },
    }
}

/// Decoding the strings written for a dataset gives the dataset back, row
/// by row.
pub proof fn lemma_dataset_round_trip(rows: Seq<Seq<Value>>)
    requires
        all_encodable(rows),
    ensures
        rows_of(dataset_text(rows), DataFormat::CSV) == Some(rows),
{
    let entries = dataset_text(rows);
    assert forall|i: int| 0 <= i < entries.len() implies (#[trigger] row_of(entries[i])) == Some(
        rows[i],
    ) by {
        lemma_row_round_trip(rows[i]);
    }
    assert(Seq::new(entries.len(), |i: int| row_of(entries[i])->Some_0) == rows);
}

/// Appends `text` to `out`, escaped.
pub fn push_escaped(out: &mut String, text: &str)
    ensures
        final(out)@ == old(out)@ + escaped(text@),
{
    broadcast use vstd::string::group_string_axioms;

    let ghost before = out@;
    for c in it: text.chars()
        invariant
            it.seq() == text@,
            out@ == before + escaped(text@.take(it.index() as int)),
    {
        proof {
            lemma_escaped_push(text@.take(it.index() as int), c);
            assert(text@.take(it.index() as int).push(c) == text@.take(it.index() + 1));
        }
        if c == SEPARATOR || c == ESCAPE {
            out.push(ESCAPE);
        }
        out.push(c);
    }
    assert(text@.take(text@.len() as int) == text@);
}

/// Appends the escaped field for `value` to `out`.
pub fn push_field(out: &mut String, value: &NativeValue)
    requires
        !(value@ is Undecodable),
    ensures
        final(out)@ == old(out)@ + escaped(field_of(value@)),
{
    let mut field = String::new();
    match value {
        NativeValue::Null => {
            field.push('n');
        },
        NativeValue::Integer(v) => {
            field.push('i');
            push_integer(&mut field, *v);
        },
        NativeValue::Float(bits) => {
            field.push('f');
            push_decimal(&mut field, *bits);
        },
        NativeValue::Text(text) => {
            field.push('t');
            field.append(text.as_str());
        },
        NativeValue::Undecodable => {},
    }
    assert(field@ == field_of(value@));
    push_escaped(out, field.as_str());
}

/// Writes `row` as one string.
///
/// Fails at the first column that has no textual form, and returns its
/// index.
pub fn encode_row(row: &Vec<NativeValue>) -> (text: Result<String, usize>)
    ensures
        match text {
            Ok(written) => encodable(values_of(row@)) && written@ == row_text(values_of(row@)),
            Err(column) => {
                &&& column < row.len()
                &&& row[column as int]@ is Undecodable
                &&& encodable(values_of(row@).take(column as int))
            },
        },
{
    let ghost values = values_of(row@);
    let ghost encoded = escaped_fields(values);
    let mut out = String::new();
    let mut i: usize = 0;
    while i < row.len()
        invariant
            i <= row.len(),
            values == values_of(row@),
            encoded == escaped_fields(values),
            encodable(values.take(i as int)),
            out@ == joined(encoded.take(i as int), seq![SEPARATOR]),
        decreases row.len() - i,
    {
        let ghost longer = encoded.take(i + 1);
        proof {
            assert(longer.drop_last() == encoded.take(i as int));
            assert(longer.last() == escaped(field_of(row[i as int]@)));
        }
        match &row[i] {
            NativeValue::Undecodable => {
                return Err(i);
            },
            _ => {},
        }
        if i > 0 {
            out.push(SEPARATOR);
        }
        push_field(&mut out, &row[i]);
        proof {
            if i > 0 {
                assert(out@ == joined(longer.drop_last(), seq![SEPARATOR]) + seq![SEPARATOR]
                    + longer.last());
            } else {
                assert(out@ == longer.last());
            }
            assert forall|j: int| 0 <= j < i + 1 implies !((#[trigger] values.take(i + 1)[j])
                is Undecodable) by {
                if j < i {
                    assert(values.take(i as int)[j] == values.take(i + 1)[j]);
                }
            }
        }
        i += 1;
    }
    proof {
        assert(encoded.take(row.len() as int) == encoded);
        assert(values.take(row.len() as int) == values);
    }
    Ok(out)
}

/// Splits an encoded row into its fields and removes the escapes.
pub fn split_fields(chars: &Vec<char>) -> (fields: Option<Vec<Vec<char>>>)
    ensures
        match fields {
            Some(found) => fields_of(chars@) == Some(lines_of(found@)),
            None => fields_of(chars@) is None,
        },
{
    let n: usize = chars.len();
    let mut done: Vec<Vec<char>> = Vec::new();
    if n == 0 {
        return Some(done);
    }
    let mut current: Vec<char> = Vec::new();
    let mut i: usize = 0;
    proof {
        let all = scan(chars@, Seq::empty());
        assert(chars@.skip(0) == chars@);
        if all is Some {
            assert(lines_of(done@) + all->Some_0 == all->Some_0);
        }
    }
    while i < n
        invariant
            i <= n,
            n == chars.len(),
            scan(chars@, Seq::empty()) == with_front(
                lines_of(done@),
                scan(chars@.skip(i as int), current@),
            ),
        decreases n - i,
    {
        let ghost rest = chars@.skip(i as int);
        let ghost before = lines_of(done@);
        let c = chars[i];
        proof {
            assert(rest[0] == c);
        }
        if c == ESCAPE {
            if i + 1 >= n {
                return None;
            }
            proof {
                assert(rest[1] == chars[i + 1]);
                assert(rest.skip(2) == chars@.skip(i + 2));
            }
            current.push(chars[i + 1]);
            i += 2;
        } else if c == SEPARATOR {
            proof {
                assert(rest.skip(1) == chars@.skip(i + 1));
            }
            let ghost closed = current@;
            done.push(current);
            current = Vec::new();
            proof {
                assert(lines_of(done@) == before.push(closed));
                let later = scan(chars@.skip(i + 1), Seq::empty());
                if later is Some {
                    assert(before + (seq![closed] + later->Some_0) == before.push(closed)
                        + later->Some_0);
                }
            }
            i += 1;
        } else {
            proof {
                assert(rest.skip(1) == chars@.skip(i + 1));
            }
            current.push(c);
            i += 1;
        }
    }
    let ghost before = lines_of(done@);
    let ghost closed = current@;
    done.push(current);
    proof {
        assert(chars@.skip(n as int).len() == 0);
        assert(lines_of(done@) == before + seq![closed]);
    }
    Some(done)
}

/// Reads the value that an unescaped field denotes.
pub fn parse_field(field: &Vec<char>) -> (value: Option<NativeValue>)
    ensures
        match value {
            Some(found) => value_of(field@) == Some(found@),
            None => value_of(field@) is None,
        },
{
    if field.len() == 0 {
        return None;
    }
    let tag = field[0];
    if tag == 'n' {
        if field.len() == 1 {
            Some(NativeValue::Null)
        } else {
            None
        }
    } else if tag == 'i' {
        match read_integer(field, 1) {
            Some(v) => Some(NativeValue::Integer(v)),
            None => None,
        }
    } else if tag == 'f' {
        match read_decimal(field, 1) {
            Some(bits) => Some(NativeValue::Float(bits)),
            None => None,
        }
    } else if tag == 't' {
        let text = string_of(field, 1, field.len());
        assert(field@.subrange(1, field.len() as int) == field@.skip(1));
        Some(NativeValue::Text(text))
    } else {
        None
    }
}

/// Reads the row that `text` denotes. `None` when `text` is not the
/// encoding of a row.
pub fn decode_row(text: &str) -> (row: Option<Vec<NativeValue>>)
    ensures
        match row {
            Some(found) => row_of(text@) == Some(values_of(found@)),
            None => row_of(text@) is None,
        },
{
    let chars = chars_of(text);
    let fields = match split_fields(&chars) {
        Some(fields) => fields,
        None => {
            return None;
        },
    };
    let ghost lines = lines_of(fields@);
    let mut row: Vec<NativeValue> = Vec::new();
    let mut i: usize = 0;
    while i < fields.len()
        invariant
            i <= fields.len(),
            lines == lines_of(fields@),
            fields_of(text@) == Some(lines),
            row.len() == i,
            forall|j: int| 0 <= j < i ==> (#[trigger] value_of(lines[j])) == Some(row[j]@),
        decreases fields.len() - i,
    {
        proof {
            assert(lines[i as int] == fields[i as int]@);
        }
        match parse_field(&fields[i]) {
            Some(value) => {
                row.push(value);
            },
            None => {
                assert(value_of(lines[i as int]) is None);
                return None;
            },
        }
        i += 1;
    }
    assert(values_of(row@) == Seq::new(lines.len(), |j: int| value_of(lines[j])->Some_0));
    Some(row)
}

/// Reads the rows that the entries of `data` denote when they are read as
/// `format`. `None` when an entry is not the encoding of a row.
pub fn decode_rows(data: &Consumable, format: DataFormat) -> (rows: Option<Vec<NativeRow>>)
    ensures
        match rows {
            Some(found) => rows_of(data@, format) == Some(dataset_of(found@)),
            None => rows_of(data@, format) is None,
        },
{
    match format {
        DataFormat::CSV => {
            let entries = data.get_data();
            let mut rows: Vec<NativeRow> = Vec::new();
            let mut i: usize = 0;
            while i < entries.len()
                invariant
                    i <= entries.len(),
                    text_of(entries@) == data@,
                    rows.len() == i,
                    forall|j: int|
                        0 <= j < i ==> (#[trigger] row_of(data@[j])) == Some(dataset_of(rows@)[j]),
                decreases entries.len() - i,
            {
                proof {
                    assert(data@[i as int] == entries[i as int]@);
                }
                match decode_row(entries[i].as_str()) {
                    Some(row) => {
                        let ghost before = dataset_of(rows@);
                        rows.push(row);
                        proof {
                            assert(dataset_of(rows@) == before.push(values_of(row@)));
                        }
                    },
                    None => {
                        assert(row_of(data@[i as int]) is None);
                        return None;
                    },
                }
                i += 1;
            }
            assert(dataset_of(rows@) == Seq::new(data@.len(), |j: int| row_of(data@[j])->Some_0));
            Some(rows)
        },
    }
}

} // verus!
