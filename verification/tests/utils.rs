use gorpvm::utils::clone_slice_into_index;

#[test]
fn clones_from_index_on_at_index_further() {
    let source = [10, 11, 12, 13, 14];
    let mut destination = [0; 8];
    clone_slice_into_index(&source, &mut destination, 1);
    assert_eq!(destination, [0, 0, 11, 12, 13, 14, 0, 0]);

    let mut destination = [0; 8];
    clone_slice_into_index(&source, &mut destination, 0);
    assert_eq!(destination, [10, 11, 12, 13, 14, 0, 0, 0]);

    let mut destination = [0; 8];
    clone_slice_into_index(&source, &mut destination, 2);
    assert_eq!(destination, [0, 0, 0, 0, 12, 13, 14, 0]);
}

#[test]
fn clones_only_as_far_as_both_slices_reach() {
    let source = [1, 2, 3, 4, 5, 6];
    let mut destination = [9; 4];
    clone_slice_into_index(&source, &mut destination, 1);
    assert_eq!(destination, [9, 9, 2, 3]);

    let mut destination = [9; 4];
    clone_slice_into_index(&source, &mut destination, 4);
    assert_eq!(destination, [9; 4]);

    let mut destination = [9; 4];
    clone_slice_into_index(&source, &mut destination, 6);
    assert_eq!(destination, [9; 4]);

    let mut names = vec![String::from("a"), String::from("b")];
    clone_slice_into_index(&[String::from("x"), String::from("y")], &mut names, 0);
    assert_eq!(names, ["x", "y"]);

    let mut empty: [u8; 0] = [];
    clone_slice_into_index(&[1u8, 2], &mut empty, 0);
    clone_slice_into_index(&[], &mut [1u8, 2], usize::MAX);
}
