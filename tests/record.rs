use noir_compute::expr::NoirType;
use noir_compute::float32::Single;
use noir_compute::record::{
    record_with_schema, record_without_schema, typed_field, untyped_field, FieldParse, NoirData,
    NoirTypeKind,
};

fn field(text: &str) -> FieldParse {
    FieldParse {
        empty: text.is_empty(),
        int: text.parse::<i32>().ok(),
        float: text.parse::<f32>().ok().map(|x| Single::from_bits(x.to_bits())),
    }
}

fn float(x: f32) -> NoirType {
    NoirType::Float32(Single::from_bits(x.to_bits()))
}

#[test]
fn untyped_fields_prefer_integers() {
    assert_eq!(untyped_field(&field("12")), NoirType::Int32(12));
    assert_eq!(untyped_field(&field("1.5")), float(1.5));
    assert_eq!(untyped_field(&field("")), NoirType::Missing());
    assert_eq!(untyped_field(&field("abc")), NoirType::Missing());
}

#[test]
fn typed_fields_follow_their_column() {
    assert_eq!(typed_field(&field("7"), NoirTypeKind::Float32), Some(float(7.0)));
    assert_eq!(typed_field(&field("7.5"), NoirTypeKind::Int32), Some(NoirType::Missing()));
    assert_eq!(typed_field(&field("7"), NoirTypeKind::Bool), None);
}

#[test]
fn record_without_schema_rows_and_projections() {
    let fields = vec![field("1"), field("2.5"), field("")];
    assert_eq!(
        record_without_schema(&fields, &None),
        NoirData::Row(vec![NoirType::Int32(1), float(2.5), NoirType::Missing()])
    );
    assert_eq!(
        record_without_schema(&fields, &Some(vec![2, 0])),
        NoirData::Row(vec![NoirType::Missing(), NoirType::Int32(1)])
    );
    assert_eq!(
        record_without_schema(&vec![field("x")], &None),
        NoirData::NoirType(NoirType::Missing())
    );
}

#[test]
fn record_with_schema_single_and_rows() {
    let int = vec![NoirTypeKind::Int32];
    assert_eq!(
        record_with_schema(&vec![field("4")], &int, &None),
        Some(NoirData::NoirType(NoirType::Int32(4)))
    );
    assert_eq!(record_with_schema(&vec![field("4.5")], &int, &None), None);
    assert_eq!(
        record_with_schema(&vec![field("")], &int, &None),
        Some(NoirData::NoirType(NoirType::Missing()))
    );
    let columns = vec![NoirTypeKind::Int32, NoirTypeKind::Float32, NoirTypeKind::Int32];
    let fields = vec![field("1"), field("2"), field("z")];
    assert_eq!(
        record_with_schema(&fields, &columns, &None),
        Some(NoirData::Row(vec![NoirType::Int32(1), float(2.0), NoirType::Missing()]))
    );
    assert_eq!(
        record_with_schema(&fields, &columns, &Some(vec![1])),
        Some(NoirData::Row(vec![float(2.0)]))
    );
    let with_bool = vec![NoirTypeKind::Int32, NoirTypeKind::Bool];
    assert_eq!(
        record_with_schema(&vec![field("1"), field("2")], &with_bool, &None),
        Some(NoirData::NoirType(NoirType::Missing()))
    );
}
