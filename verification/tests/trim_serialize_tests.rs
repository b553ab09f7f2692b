use selective_scan::error::ErrorCode;
use selective_scan::serialize::{
    BooleanSerializer, ColumnRef, DataValue, NullableColumn, NullableSerializer, TypeSerializer,
};
use selective_scan::trim::{StringColumn, TrimBoth, TrimFunction, TrimLeading, TrimOperator, TrimTrailing};

fn trim_leading(s: &[u8], t: &[u8]) -> Vec<u8> {
    let mut buffer = Vec::new();
    TrimLeading.apply(&s.to_vec(), &t.to_vec(), &mut buffer);
    buffer
}

fn trim_trailing(s: &[u8], t: &[u8]) -> Vec<u8> {
    let mut buffer = Vec::new();
    TrimTrailing.apply(&s.to_vec(), &t.to_vec(), &mut buffer);
    buffer
}

fn trim_both(s: &[u8], t: &[u8]) -> Vec<u8> {
    let mut buffer = Vec::new();
    TrimBoth.apply(&s.to_vec(), &t.to_vec(), &mut buffer);
    buffer
}

#[test]
fn trim_leading_removes_whole_leading_copies() {
    assert_eq!(trim_leading(b"ababhello", b"ab"), b"hello");
    assert_eq!(trim_leading(b"hello", b"ab"), b"hello");
    assert_eq!(trim_leading(b"abab", b"ab"), b"");
    assert_eq!(trim_leading(b"aba", b"ab"), b"a");
    assert_eq!(trim_leading(b"", b"ab"), b"");
}

#[test]
fn trim_trailing_removes_whole_trailing_copies() {
    assert_eq!(trim_trailing(b"helloabab", b"ab"), b"hello");
    assert_eq!(trim_trailing(b"hello", b"ab"), b"hello");
    assert_eq!(trim_trailing(b"abab", b"ab"), b"");
    assert_eq!(trim_trailing(b"aab", b"ab"), b"a");
}

#[test]
fn trim_both_removes_both_ends() {
    assert_eq!(trim_both(b"abhelloab", b"ab"), b"hello");
    assert_eq!(trim_both(b"hello", b"ab"), b"hello");
    assert_eq!(trim_both(b"abab", b"ab"), b"");
    assert_eq!(trim_both(b"abxab", b"ab"), b"x");
}

#[test]
fn trim_appends_to_existing_buffer() {
    let mut buffer = vec![b'>'];
    TrimLeading.apply(&b"ababtail".to_vec(), &b"ab".to_vec(), &mut buffer);
    assert_eq!(buffer, b">tail");
}

#[test]
fn nullable_serializer_renders_null_values() {
    let s = NullableSerializer {
        inner: BooleanSerializer,
    };
    assert_eq!(s.serialize_value(&DataValue::Null).unwrap(), "NULL");
    assert_eq!(s.serialize_value(&DataValue::Boolean(true)).unwrap(), "true");
    assert_eq!(
        s.serialize_value(&DataValue::Boolean(false)).unwrap(),
        "false"
    );
}

#[test]
fn nullable_serializer_overwrites_null_rows() {
    let s = NullableSerializer {
        inner: BooleanSerializer,
    };
    let column = ColumnRef::Nullable(NullableColumn {
        validity: vec![true, false, true],
        inner: Box::new(ColumnRef::Boolean(vec![true, true, false])),
    });
    assert_eq!(
        s.serialize_column(&column).unwrap(),
        vec!["true", "NULL", "false"]
    );
}

#[test]
fn nullable_serializer_rejects_non_nullable_columns() {
    let s = NullableSerializer {
        inner: BooleanSerializer,
    };
    let column = ColumnRef::Boolean(vec![true]);
    assert_eq!(
        s.serialize_column(&column).err(),
        Some(ErrorCode::TypeMismatch)
    );
}

#[test]
fn boolean_serializer_rejects_null_values() {
    assert_eq!(
        BooleanSerializer.serialize_value(&DataValue::Null).err(),
        Some(ErrorCode::TypeMismatch)
    );
}


fn column(rows: &[&[u8]]) -> StringColumn {
    let mut values = Vec::new();
    let mut offsets = vec![0usize];
    for row in rows {
        values.extend_from_slice(row);
        offsets.push(values.len());
    }
    StringColumn { values, offsets }
}

#[test]
fn eval_trims_every_row() {
    let strings = column(&[b"ababX", b"Yab", b"abab"]);
    let patterns = column(&[b"ab", b"ab", b"ab"]);
    let mut f = TrimFunction::try_create("trim_both", TrimBoth);
    assert_eq!(f.name(), "trim_both");
    let out = f.eval(&strings, &patterns);
    assert_eq!(out.rows(), 3);
    assert_eq!(out.value_at(0), b"X");
    assert_eq!(out.value_at(1), b"Y");
    assert_eq!(out.value_at(2), b"");
}

#[test]
fn eval_with_leading_operator_keeps_tails() {
    let strings = column(&[b"abtail", b"plain"]);
    let patterns = column(&[b"ab", b"zz"]);
    let mut f = TrimFunction::try_create("ltrim", TrimLeading);
    let out = f.eval(&strings, &patterns);
    assert_eq!(out.value_at(0), b"tail");
    assert_eq!(out.value_at(1), b"plain");
}
