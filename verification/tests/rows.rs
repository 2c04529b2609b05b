use binius_circuits::oracle::ProjectionVariant;
use binius_circuits::rows::project_rows;

const FIRST: [u8; 64] = [
    0xa5, 0xa2, 0xb1, 0x60, 0x91, 0xed, 0x5e, 0xfb, 0xae, 0x1c, 0xb2, 0x14, 0x92, 0x73, 0x92, 0xc8,
    0x56, 0x6d, 0xfa, 0xde, 0xa8, 0x46, 0x77, 0x48, 0xe1, 0xcc, 0x90, 0x75, 0x78, 0xd5, 0x19, 0xbe,
    0x0c, 0x86, 0x39, 0x28, 0x0c, 0xcc, 0xe9, 0x4e, 0x46, 0xd9, 0x84, 0x65, 0x4a, 0xa2, 0xb4, 0x64,
    0xeb, 0x59, 0x7b, 0xfd, 0x3f, 0x0e, 0x2d, 0xea, 0x06, 0x42, 0xa9, 0xea, 0x19, 0x8f, 0x19, 0x52,
];

const SECOND: [u8; 64] = [
    0x18, 0xd8, 0x58, 0xd3, 0x24, 0xf1, 0x8b, 0xec, 0x74, 0x1c, 0xab, 0x78, 0x13, 0x3e, 0x57, 0xd7,
    0x36, 0x15, 0x54, 0x50, 0x9a, 0xcb, 0x98, 0x90, 0x58, 0xcb, 0x79, 0x05, 0x83, 0x72, 0xea, 0x4d,
    0xf6, 0x3d, 0xf3, 0x2f, 0xaf, 0xe3, 0x32, 0x11, 0xc9, 0x97, 0xfb, 0xba, 0x24, 0x36, 0xe9, 0x38,
    0x7e, 0xc7, 0xa9, 0x68, 0xbf, 0x31, 0x51, 0xcf, 0x7b, 0x12, 0x20, 0x53, 0xd8, 0xdf, 0xd7, 0xcc,
];

fn values(bytes: &[u8]) -> Vec<u128> {
    bytes.iter().map(|b| *b as u128).collect()
}

#[test]
fn projection_on_the_first_variables_takes_rows_at_a_stride() {
    // the query point (1, 0, 1, 1) has index 13: the rows 13, 29, 45 and 61 are kept
    let projected = project_rows(&values(&FIRST), 13, 4, ProjectionVariant::FirstVars).unwrap();
    assert_eq!(projected, vec![FIRST[13] as u128, FIRST[29] as u128, FIRST[45] as u128, FIRST[61] as u128]);
    assert_eq!(projected, vec![0x73, 0xd5, 0xa2, 0x8f]);
    let projected = project_rows(&values(&SECOND), 13, 4, ProjectionVariant::FirstVars).unwrap();
    assert_eq!(projected, vec![0x3e, 0x72, 0x36, 0xdf]);
}

#[test]
fn projection_on_the_last_variables_takes_consecutive_rows() {
    // the query point (1, 1, 1, 1) has index 15: the last 4 of the 64 rows are kept
    let projected = project_rows(&values(&FIRST), 15, 4, ProjectionVariant::LastVars).unwrap();
    assert_eq!(projected, vec![0x19, 0x8f, 0x19, 0x52]);
    let projected = project_rows(&values(&FIRST), 0, 4, ProjectionVariant::LastVars).unwrap();
    assert_eq!(projected, vec![0xa5, 0xa2, 0xb1, 0x60]);
    let projected = project_rows(&values(&FIRST), 1, 1, ProjectionVariant::LastVars).unwrap();
    assert_eq!(projected, values(&FIRST[32..]));
}

#[test]
fn projection_on_no_variable_keeps_every_row() {
    for variant in [ProjectionVariant::FirstVars, ProjectionVariant::LastVars] {
        assert_eq!(project_rows(&values(&FIRST), 0, 0, variant), Some(values(&FIRST)));
        assert_eq!(project_rows(&values(&FIRST), 1, 0, variant), None);
        assert_eq!(project_rows(&values(&FIRST), 16, 4, variant), None);
        assert_eq!(project_rows(&values(&FIRST), 63, 6, variant), Some(vec![0x52]));
        assert_eq!(project_rows(&values(&FIRST), 5, 7, variant), Some(vec![]));
        assert_eq!(project_rows(&values(&FIRST), 5, usize::MAX, variant), Some(vec![]));
    }
}
