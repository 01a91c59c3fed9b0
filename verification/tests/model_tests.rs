use rasterizer::model::{Model, ModelError};

fn parse_str(text: &str) -> Result<Model, ModelError> {
    Model::parse(&text.as_bytes().to_vec())
}

#[test]
fn parses_vertexes_and_faces() {
    let text = "v 0.5 1.0 -0.3\nf 2/7/1 1/2 3\nv 1 2 3\n";
    let model = parse_str(text).unwrap();

    assert_eq!(model.vertexes.len(), 2);
    assert_eq!(model.vertexes[0].0, b"0.5".to_vec());
    assert_eq!(model.vertexes[0].1, b"1.0".to_vec());
    assert_eq!(model.vertexes[0].2, b"-0.3".to_vec());
    assert_eq!(model.vertexes[1].0, b"1".to_vec());

    assert_eq!(model.faces.len(), 1);
    assert_eq!(model.faces[0], (1, 0, 2));
}

#[test]
fn skips_lines_with_wrong_token_count() {
    let text = "v 1 2\n# a comment\nvt 0.1 0.2 0.3 0.4\n\nv 4 5 6\n";
    let model = parse_str(text).unwrap();

    assert_eq!(model.vertexes.len(), 1);
    assert_eq!(model.vertexes[0].0, b"4".to_vec());
    assert_eq!(model.faces.len(), 0);
}

#[test]
fn trims_carriage_returns_and_spaces() {
    let text = "  v 1 2 3\r\nf 1 1 1  \r\n";
    let model = parse_str(text).unwrap();

    assert_eq!(model.vertexes.len(), 1);
    assert_eq!(model.faces.len(), 1);
    assert_eq!(model.faces[0], (0, 0, 0));
}

#[test]
fn face_index_zero_is_an_error() {
    let text = "f 0 2 3\n";

    assert_eq!(parse_str(text).unwrap_err(), ModelError::BadNumber);
}

#[test]
fn face_index_not_numeric_is_an_error() {
    let text = "f a 2 3\n";

    assert_eq!(parse_str(text).unwrap_err(), ModelError::BadNumber);
}

#[test]
fn face_index_too_large_is_an_error() {
    let text = "f 4294967296 1 1\n";

    assert_eq!(parse_str(text).unwrap_err(), ModelError::BadNumber);
}

#[test]
fn face_index_with_plus_sign_parses() {
    let text = "f +2 1 1\n";
    let model = parse_str(text).unwrap();

    assert_eq!(model.faces[0], (1, 0, 0));
}

#[test]
fn face_index_at_u32_max_parses() {
    let text = "f 4294967295 1 1\n";
    let model = parse_str(text).unwrap();

    assert_eq!(model.faces[0], (4294967294, 0, 0));
}

#[test]
fn empty_text_gives_empty_model() {
    let model = parse_str("").unwrap();

    assert_eq!(model.vertexes.len(), 0);
    assert_eq!(model.faces.len(), 0);
}
