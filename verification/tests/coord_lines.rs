use mod1::coords::{split_coord_line, CoordError};

fn split(line: &str) -> Result<(Vec<u8>, Vec<u8>, Vec<u8>), CoordError> {
    split_coord_line(&line.as_bytes().to_vec())
}

#[test]
fn plain_coordinate_line_splits() {
    let (x, y, z) = split("(15,20,15)").unwrap();
    assert_eq!(x, b"15".to_vec());
    assert_eq!(y, b"20".to_vec());
    assert_eq!(z, b"15".to_vec());
}

#[test]
fn fields_are_stripped_of_blanks() {
    let (x, y, z) = split("(-20.54, 15.728, 120.7)").unwrap();
    assert_eq!(x, b"-20.54".to_vec());
    assert_eq!(y, b"15.728".to_vec());
    assert_eq!(z, b"120.7".to_vec());
    let (x2, y2, z2) = split("(  1 ,\t2 , 3  )").unwrap();
    assert_eq!(x2, b"1".to_vec());
    assert_eq!(y2, b"2".to_vec());
    assert_eq!(z2, b"3".to_vec());
}

#[test]
fn splitting_does_not_judge_field_contents() {
    // A field that is not a number still splits; rejecting it is the number
    // parser's job.
    let (x, _, _) = split("(-20.five, 15.728, 120.7)").unwrap();
    assert_eq!(x, b"-20.five".to_vec());
}

#[test]
fn repeated_parentheses_are_trimmed() {
    let (x, y, z) = split("((1,2,3))").unwrap();
    assert_eq!(x, b"1".to_vec());
    assert_eq!(y, b"2".to_vec());
    assert_eq!(z, b"3".to_vec());
}

#[test]
fn malformed_lines_are_rejected() {
    assert_eq!(split("(1,2)"), Err(CoordError));
    assert_eq!(split("(10,20)"), Err(CoordError));
    assert_eq!(split("1,2,3)"), Err(CoordError));
    assert_eq!(split("(1,2,3"), Err(CoordError));
    assert_eq!(split("(1,2,3,4)"), Err(CoordError));
    assert_eq!(split("(((())))"), Err(CoordError));
    assert_eq!(split(""), Err(CoordError));
}
