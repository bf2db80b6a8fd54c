use cdm_linker::optimization::Optimization;
use cdm_linker::{InvalidOutputType, OutputType};

#[test]
fn output_type_reads_its_two_names() {
    assert_eq!(OutputType::from_str("object"), Ok(OutputType::Object));
    assert_eq!(OutputType::from_str("image"), Ok(OutputType::Image));
}

#[test]
fn output_type_rejects_other_names() {
    assert_eq!(OutputType::from_str("Object"), Err(InvalidOutputType));
    assert_eq!(OutputType::from_str(""), Err(InvalidOutputType));
    assert_eq!(OutputType::from_str("images"), Err(InvalidOutputType));
    assert_eq!(InvalidOutputType.to_string(), "invalid output type");
}

#[test]
fn output_type_name_roundtrip() {
    for t in [OutputType::Object, OutputType::Image] {
        assert_eq!(OutputType::from_str(&t.to_string()), Ok(t));
    }
    assert_eq!(OutputType::Object.to_string(), "object");
    assert_eq!(OutputType::Image.to_string(), "image");
}

#[test]
fn output_type_default_is_object() {
    assert_eq!(OutputType::default(), OutputType::Object);
}

#[test]
fn optimization_names() {
    assert_eq!(Optimization::O0.to_string(), "O0");
    assert_eq!(Optimization::O3.to_string(), "O3");
    assert_eq!(Optimization::Os.to_string(), "Os");
    assert_eq!(Optimization::Oz.to_string(), "Oz");
}
