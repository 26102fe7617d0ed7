use plutils::cast_arr_to_struct;
use plutils::Mismatch;
use plutils::ReshapeError;
use polars::prelude::ArrayChunked;
use polars::prelude::DataType;
use polars::prelude::IntoSeries;
use polars::prelude::NamedFrom;
use polars::prelude::Series;
use polars::prelude::StructChunked;
use polars_arrow::array::FixedSizeListArray;

fn arrays(name: &str, rows: &[Option<&[i64]>], width: usize) -> Series {
    let rows: Vec<Option<Series>> =
        rows.iter().map(|row| row.map(|items| Series::new("".into(), items))).collect();
    let lists = Series::new(name.into(), rows);
    lists.cast(&DataType::Array(Box::new(DataType::Int64), width)).unwrap()
}

fn struct_like(names: &[&str]) -> Series {
    let fields: Vec<Series> =
        names.iter().map(|name| Series::new((*name).into(), &[0i64])).collect();
    StructChunked::from_series("s".into(), 1, fields.iter()).unwrap().into_series()
}

fn field_values(out: &Series, name: &str) -> Vec<Option<i64>> {
    let field = out.struct_().unwrap().field_by_name(name).unwrap();
    field.i64().unwrap().iter().collect()
}

#[test]
fn cast_arr_to_struct_names_the_positions() {
    let target = arrays("t", &[Some(&[1, 10]), Some(&[2, 20])], 2);
    let like = struct_like(&["x", "y"]);
    let out = cast_arr_to_struct(&target, &like).unwrap();
    assert_eq!(out.name().as_str(), "t");
    assert_eq!(out.dtype(), like.dtype());
    assert_eq!(out.len(), 2);
    assert_eq!(out.null_count(), 0);
    assert_eq!(field_values(&out, "x"), vec![Some(1), Some(2)]);
    assert_eq!(field_values(&out, "y"), vec![Some(10), Some(20)]);
}

#[test]
fn cast_arr_to_struct_keeps_null_rows_null() {
    let target = arrays("t", &[Some(&[1, 2, 3]), None, Some(&[7, 8, 9])], 3);
    let out = cast_arr_to_struct(&target, &struct_like(&["a", "b", "c"])).unwrap();
    assert_eq!(out.len(), 3);
    let nulls: Vec<Option<bool>> = out.is_null().iter().collect();
    assert_eq!(nulls, vec![Some(false), Some(true), Some(false)]);
    let a = field_values(&out, "a");
    let c = field_values(&out, "c");
    assert_eq!((a[0], a[2]), (Some(1), Some(7)));
    assert_eq!((c[0], c[2]), (Some(3), Some(9)));
}

#[test]
fn cast_arr_to_struct_takes_a_target_in_chunks() {
    let mut target = arrays("t", &[Some(&[1, 10])], 2);
    target.append(&arrays("t", &[Some(&[2, 20]), Some(&[3, 30])], 2)).unwrap();
    assert_eq!(target.n_chunks(), 2);
    let out = cast_arr_to_struct(&target, &struct_like(&["x", "y"])).unwrap();
    assert_eq!(field_values(&out, "x"), vec![Some(1), Some(2), Some(3)]);
    assert_eq!(field_values(&out, "y"), vec![Some(10), Some(20), Some(30)]);
}

#[test]
fn cast_arr_to_struct_refuses_another_width() {
    let target = arrays("t", &[Some(&[1, 10])], 2);
    match cast_arr_to_struct(&target, &struct_like(&["a", "b", "c"])) {
        Err(ReshapeError::ShapeMismatch(m)) => {
            assert_eq!(m, Mismatch::Width { array_width: 2, struct_width: 3 })
        }
        other => panic!("expected a shape mismatch, got {:?}", other),
    }
}

#[test]
fn cast_arr_to_struct_refuses_a_target_that_holds_no_arrays() {
    let target = Series::new("t".into(), &[1i64, 2]);
    let r = cast_arr_to_struct(&target, &struct_like(&["x", "y"]));
    assert!(r.unwrap_err().is_engine());
}

#[test]
fn cast_arr_to_struct_refuses_a_pattern_that_holds_no_structs() {
    let target = arrays("t", &[Some(&[1, 10])], 2);
    let r = cast_arr_to_struct(&target, &Series::new("s".into(), &[1i64, 2]));
    assert!(r.unwrap_err().is_engine());
}

#[test]
fn cast_arr_to_struct_leaves_fields_of_another_type_to_the_engine() {
    let target = arrays("t", &[Some(&[1, 10])], 2);
    let fields = vec![Series::new("x".into(), &[0i64]), Series::new("y".into(), &["a"])];
    let like = StructChunked::from_series("s".into(), 1, fields.iter()).unwrap().into_series();
    let r = cast_arr_to_struct(&target, &like);
    assert!(r.unwrap_err().is_engine());
}

#[test]
fn cast_arr_to_struct_refuses_a_target_without_chunks() {
    let pattern = arrays("t", &[Some(&[1, 10])], 2);
    let none: Vec<FixedSizeListArray> = Vec::new();
    let target = ArrayChunked::from_chunk_iter_like(pattern.array().unwrap(), none).into_series();
    assert_eq!(target.n_chunks(), 0);
    match cast_arr_to_struct(&target, &struct_like(&["x", "y"])) {
        Err(ReshapeError::ShapeMismatch(m)) => assert_eq!(m, Mismatch::NoChunk),
        other => panic!("expected a shape mismatch, got {:?}", other),
    }
}

#[test]
fn cast_arr_to_struct_reads_text_and_truth_values() {
    let rows = vec![Series::new("".into(), &["a", "b"]), Series::new("".into(), &["c", "d"])];
    let target = Series::new("t".into(), rows)
        .cast(&DataType::Array(Box::new(DataType::String), 2))
        .unwrap();
    let fields = vec![Series::new("x".into(), &["0"]), Series::new("y".into(), &["0"])];
    let like = StructChunked::from_series("s".into(), 1, fields.iter()).unwrap().into_series();
    let out = cast_arr_to_struct(&target, &like).unwrap();
    let x = out.struct_().unwrap().field_by_name("x").unwrap();
    let y = out.struct_().unwrap().field_by_name("y").unwrap();
    let xs: Vec<Option<&str>> = x.str().unwrap().iter().collect();
    let ys: Vec<Option<&str>> = y.str().unwrap().iter().collect();
    assert_eq!(xs, vec![Some("a"), Some("c")]);
    assert_eq!(ys, vec![Some("b"), Some("d")]);

    let rows = vec![Series::new("".into(), &[true, false]), Series::new("".into(), &[false, false])];
    let target = Series::new("t".into(), rows)
        .cast(&DataType::Array(Box::new(DataType::Boolean), 2))
        .unwrap();
    let fields = vec![Series::new("x".into(), &[true]), Series::new("y".into(), &[true])];
    let like = StructChunked::from_series("s".into(), 1, fields.iter()).unwrap().into_series();
    let out = cast_arr_to_struct(&target, &like).unwrap();
    let x = out.struct_().unwrap().field_by_name("x").unwrap();
    let xs: Vec<Option<bool>> = x.bool().unwrap().iter().collect();
    assert_eq!(xs, vec![Some(true), Some(false)]);
}
