use greppy::plan::PlannedOp;
use greppy::txn::{apply_in_memory, ApplyError};

fn op(id: &str, a: usize, b: usize, rep: &str) -> PlannedOp {
    PlannedOp { id: id.into(), range: (a, b), replacement: rep.as_bytes().to_vec() }
}

#[test]
fn replacements_apply_in_position_order() {
    let content = b"VALUE = 1\nLIMIT = 10\n";
    let ops = vec![op("b", 10, 20, "LIMIT = 20"), op("a", 0, 9, "VALUE = 2")];
    assert_eq!(apply_in_memory(content, &ops).unwrap(), b"VALUE = 2\nLIMIT = 20\n".to_vec());
}

#[test]
fn insertions_at_one_point_keep_plan_order() {
    let ops = vec![op("x", 1, 1, "X"), op("y", 1, 1, "Y")];
    assert_eq!(apply_in_memory(b"ab", &ops).unwrap(), b"aXYb".to_vec());
    assert_eq!(apply_in_memory(b"ab", &[]).unwrap(), b"ab".to_vec());
}

#[test]
fn overlapping_or_outside_ranges_refuse() {
    let ops = vec![op("a", 0, 5, ""), op("b", 3, 6, "")];
    assert_eq!(apply_in_memory(b"0123456789", &ops).unwrap_err(), ApplyError::Overlap);
    assert_eq!(apply_in_memory(b"012", &[op("a", 2, 9, "")]).unwrap_err(), ApplyError::RangeOutOfBounds);
    assert_eq!(apply_in_memory(b"012", &[op("a", 2, 1, "")]).unwrap_err(), ApplyError::RangeOutOfBounds);
}
