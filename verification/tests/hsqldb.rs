use sim_ledger::hsqldb::row::{
    checked_hsqldb_len, read_cell, try_write_cell, Cell, HsqlError, HsqlErrorKind, WriteCellError,
};
use sim_ledger::hsqldb::table::read_table;
use sim_ledger::script::ColType;

const PRESENT_MARKER: u8 = 1;

#[test]
fn round_trips_all_supported_column_types() {
    let cases = [
        (Cell::Null, ColType::Integer),
        (Cell::Null, ColType::Varchar),
        (Cell::Null, ColType::Date),
        (Cell::Null, ColType::Numeric),
        (Cell::Int(-42), ColType::Integer),
        (Cell::Str("konto-rad alpha".to_owned()), ColType::Varchar),
        (
            Cell::Str("r\u{00e4}nta p\u{00e5} \u{00e5}ret".to_owned()),
            ColType::Varchar,
        ),
        (Cell::Date("2024-02-29".to_owned()), ColType::Date),
        (Cell::Num(123_456), ColType::Numeric),
        (Cell::Num(-123_456), ColType::Numeric),
    ];

    for (cell, ty) in cases {
        let mut bytes = Vec::new();
        try_write_cell(&mut bytes, &cell, ty).unwrap();
        let (decoded, pos) = read_cell(&bytes, 0, ty).unwrap();
        assert_eq!(decoded, cell);
        assert_eq!(pos, bytes.len());
    }
}

#[test]
fn rejects_cell_type_mismatches_without_writing() {
    let mut bytes = Vec::new();
    let err = try_write_cell(
        &mut bytes,
        &Cell::Str("not int".to_owned()),
        ColType::Integer,
    )
    .unwrap_err();

    assert_eq!(
        err,
        WriteCellError::TypeMismatch {
            cell: "str",
            ty: ColType::Integer
        }
    );
    assert!(bytes.is_empty());
}

#[test]
fn rejects_out_of_range_integer_without_writing() {
    let mut bytes = Vec::new();
    let err = try_write_cell(
        &mut bytes,
        &Cell::Int(i64::from(i32::MAX) + 1),
        ColType::Integer,
    )
    .unwrap_err();

    assert_eq!(
        err,
        WriteCellError::IntegerOutOfRange {
            value: i64::from(i32::MAX) + 1
        }
    );
    assert!(bytes.is_empty());
}

#[test]
fn rejects_invalid_dates_without_writing() {
    let mut bytes = Vec::new();
    let err = try_write_cell(
        &mut bytes,
        &Cell::Date("2024-02-31".to_owned()),
        ColType::Date,
    )
    .unwrap_err();

    assert_eq!(
        err,
        WriteCellError::InvalidDate {
            value: "2024-02-31".to_owned()
        }
    );
    assert!(bytes.is_empty());
}

#[test]
fn rejects_length_prefix_overflow() {
    let len = i32::MAX as usize + 1;
    assert_eq!(
        checked_hsqldb_len(len).unwrap_err(),
        WriteCellError::LengthOutOfRange { len }
    );
}

#[test]
fn reads_numeric_scales_as_minor_units() {
    assert_eq!(read_numeric(0, 1_234).unwrap(), Cell::Num(123_400));
    assert_eq!(read_numeric(1, 1_234).unwrap(), Cell::Num(12_340));
    assert_eq!(read_numeric(2, 1_234).unwrap(), Cell::Num(1_234));
}

#[test]
fn reads_hsqldb_numeric_payload_before_scale() {
    let bytes = [PRESENT_MARKER, 0, 0, 0, 2, 0x04, 0xd2, 0, 0, 0, 2];
    let (cell, pos) = read_cell(&bytes, 0, ColType::Numeric).unwrap();
    assert_eq!(cell, Cell::Num(1_234));
    assert_eq!(pos, bytes.len());
}

#[test]
fn rejects_unsupported_numeric_scale() {
    let err = read_numeric(3, 1_234).unwrap_err();
    assert!(err.message().contains("unsupported HSQLDB NUMERIC scale"));
}

#[test]
fn fails_closed_on_truncated_input() {
    let err = read_cell(&[PRESENT_MARKER, 0, 0], 0, ColType::Integer).unwrap_err();
    assert!(err.message().contains("unexpected end"));
}

fn read_numeric(scale: i32, unscaled: i64) -> Result<Cell, HsqlError> {
    let mut bytes = vec![PRESENT_MARKER];
    write_len_bytes(&mut bytes, &encode_big_integer(unscaled));
    write_i32(&mut bytes, scale);
    let (cell, pos) = read_cell(&bytes, 0, ColType::Numeric)?;
    assert_eq!(pos, bytes.len());
    Ok(cell)
}

fn write_i32(out: &mut Vec<u8>, value: i32) {
    out.extend_from_slice(&value.to_be_bytes());
}

fn write_len_bytes(out: &mut Vec<u8>, bytes: &[u8]) {
    let len = i32::try_from(bytes.len()).unwrap();
    write_i32(out, len);
    out.extend_from_slice(bytes);
}

fn encode_big_integer(value: i64) -> Vec<u8> {
    let mut bytes = value.to_be_bytes().to_vec();
    while bytes.len() > 1 {
        let redundant_positive = bytes[0] == 0 && bytes[1] & 0x80 == 0;
        let redundant_negative = bytes[0] == 0xff && bytes[1] & 0x80 != 0;
        if redundant_positive || redundant_negative {
            bytes.remove(0);
        } else {
            break;
        }
    }
    bytes
}

fn append_row(
    data: &mut Vec<u8>,
    left: i32,
    right: i32,
    parent: i32,
    cells: &[(Cell, ColType)],
) -> i32 {
    let offset = i32::try_from(data.len()).unwrap();
    let mut body = Vec::new();
    body.extend_from_slice(&0_i32.to_be_bytes());
    body.extend_from_slice(&left.to_be_bytes());
    body.extend_from_slice(&right.to_be_bytes());
    body.extend_from_slice(&parent.to_be_bytes());
    body.extend_from_slice(&0_i32.to_be_bytes());
    body.extend_from_slice(&0_i32.to_be_bytes());
    body.extend_from_slice(&0_i32.to_be_bytes());
    body.extend_from_slice(&0_i32.to_be_bytes());
    for (cell, ty) in cells {
        try_write_cell(&mut body, cell, *ty).unwrap();
    }
    let row_size = i32::try_from(body.len() + 4).unwrap();
    data.extend_from_slice(&row_size.to_be_bytes());
    data.extend_from_slice(&body);
    offset
}

#[test]
fn walks_primary_index_in_order() {
    let cols = vec![
        ("id".to_owned(), ColType::Integer),
        ("name".to_owned(), ColType::Varchar),
    ];
    let mut data = vec![0; 16];
    let left = append_row(
        &mut data,
        0,
        0,
        0,
        &[
            (Cell::Int(1), ColType::Integer),
            (Cell::Str("a".to_owned()), ColType::Varchar),
        ],
    );
    let root = append_row(
        &mut data,
        left,
        0,
        0,
        &[
            (Cell::Int(2), ColType::Integer),
            (Cell::Str("b".to_owned()), ColType::Varchar),
        ],
    );

    let rows = read_table(&data, i64::from(root), &cols, 2).unwrap();
    assert_eq!(
        rows,
        vec![
            vec![Cell::Int(1), Cell::Str("a".to_owned())],
            vec![Cell::Int(2), Cell::Str("b".to_owned())],
        ]
    );
}

#[test]
fn table_walk_refuses_an_index_cycle() {
    let cols = vec![("id".to_owned(), ColType::Integer)];
    let mut data = vec![0; 16];
    // the row names itself as its left child
    let at = append_row(&mut data, 16, 0, 0, &[(Cell::Int(1), ColType::Integer)]);
    assert_eq!(at, 16);
    let err = read_table(&data, 16, &cols, 1).unwrap_err();
    assert_eq!(err.kind, HsqlErrorKind::RowCycle(16));
}

#[test]
fn table_walk_refuses_bad_offsets_and_sizes() {
    let cols = vec![("id".to_owned(), ColType::Integer)];
    let data = vec![0u8; 8];
    assert_eq!(read_table(&data, 0, &cols, 1).unwrap(), Vec::<Vec<Cell>>::new());
    let err = read_table(&data, 4, &cols, 1).unwrap_err();
    assert_eq!(err.kind, HsqlErrorKind::InvalidRowSize(0));
    let err = read_table(&data, 100, &cols, 1).unwrap_err();
    assert!(matches!(err.kind, HsqlErrorKind::UnexpectedEof { .. }));
}

#[test]
fn numeric_cells_outside_minor_units_overflow() {
    let mut bytes = vec![PRESENT_MARKER];
    write_len_bytes(&mut bytes, &encode_big_integer(i64::MAX));
    write_i32(&mut bytes, 0);
    let err = read_cell(&bytes, 0, ColType::Numeric).unwrap_err();
    assert_eq!(err.kind, HsqlErrorKind::NumericOverflow);
}

#[test]
fn negative_text_length_is_refused() {
    let mut bytes = vec![PRESENT_MARKER];
    write_i32(&mut bytes, -1);
    let err = read_cell(&bytes, 0, ColType::Varchar).unwrap_err();
    assert_eq!(err.kind, HsqlErrorKind::NegativeLength(-1));
}

#[test]
fn date_cells_round_trip_through_millis() {
    let mut bytes = Vec::new();
    try_write_cell(&mut bytes, &Cell::Date("1970-01-01".to_owned()), ColType::Date).unwrap();
    assert_eq!(bytes, vec![PRESENT_MARKER, 0, 0, 0, 0, 0, 0, 0, 0]);
    let mut bytes = Vec::new();
    try_write_cell(&mut bytes, &Cell::Date("1969-12-31".to_owned()), ColType::Date).unwrap();
    let (cell, _) = read_cell(&bytes, 0, ColType::Date).unwrap();
    assert_eq!(cell, Cell::Date("1969-12-31".to_owned()));
}

#[test]
fn rejects_date_text_that_is_not_iso() {
    for text in ["2024-2-5", "+2024-02-05", "2024-02-5", "24-02-05"] {
        let mut bytes = Vec::new();
        let err = try_write_cell(&mut bytes, &Cell::Date(text.to_owned()), ColType::Date).unwrap_err();
        assert_eq!(err, WriteCellError::InvalidDate { value: text.to_owned() });
        assert!(bytes.is_empty());
    }
}

#[test]
fn dates_are_written_as_epoch_millis_of_utc_midnight() {
    for (text, seconds) in [("1970-01-01", 0i64), ("2024-02-29", 1_709_164_800), ("1969-12-31", -86_400), ("0001-01-01", -62_135_596_800)] {
        let mut bytes = Vec::new();
        try_write_cell(&mut bytes, &Cell::Date(text.to_owned()), ColType::Date).unwrap();
        let mut expected = vec![PRESENT_MARKER];
        expected.extend_from_slice(&(seconds * 1000).to_be_bytes());
        assert_eq!(bytes, expected, "{text}");
    }
}
