use mlir_core::location::Location;
use mlir_core::types::Type;

#[test]
fn type_new() {
    Type::parse("f32");
}

#[test]
fn integer() {
    assert_eq!(Type::integer(42), Type::parse("i42").unwrap());
}

#[test]
fn signed_integer() {
    assert_eq!(Type::signed_integer(42), Type::parse("si42").unwrap());
}

#[test]
fn unsigned_integer() {
    assert_eq!(Type::unsigned_integer(42), Type::parse("ui42").unwrap());
}

#[test]
fn index() {
    assert_eq!(Type::index(), Type::parse("index").unwrap());
}

#[test]
fn vector() {
    assert_eq!(
        Type::vector(vec![42], Type::integer(32)),
        Type::parse("vector<42xi32>").unwrap()
    );
}

#[test]
fn vector_checked() {
    assert_eq!(
        Type::vector_checked(Location::unknown(), vec![42], Type::integer(32)),
        Type::parse("vector<42xi32>")
    );
}

#[test]
fn vector_checked_fail() {
    assert_eq!(
        Type::vector_checked(Location::unknown(), vec![0], Type::index()),
        None
    );
}

#[test]
fn type_equal() {
    assert_eq!(Type::index(), Type::index());
}

#[test]
fn type_not_equal() {
    assert_ne!(Type::index(), Type::integer(1));
}

#[test]
fn type_display() {
    assert_eq!(Type::integer(42).to_text(), "i42");
}

#[test]
fn multi_dim_vector_text() {
    assert_eq!(
        Type::vector(vec![2, 3], Type::float32()).to_text(),
        "vector<2x3xf32>"
    );
    assert_eq!(
        Type::parse("vector<2x3xf32>").unwrap(),
        Type::vector(vec![2, 3], Type::float32())
    );
}

#[test]
fn scalar_texts() {
    assert_eq!(Type::bfloat16().to_text(), "bf16");
    assert_eq!(Type::float16().to_text(), "f16");
    assert_eq!(Type::float64().to_text(), "f64");
    assert_eq!(Type::none().to_text(), "none");
    assert_eq!(Type::parse("none").unwrap(), Type::none());
    assert_eq!(Type::parse("i042"), None);
    assert_eq!(Type::parse("vector<0xi32>"), None);
    assert_eq!(Type::parse("vector<4xindex>"), None);
}
