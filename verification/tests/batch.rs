use malceiver::batch::assemble;
use malceiver::features::FeatureSet;

fn set(opcodes: Vec<u8>, indices: Vec<i32>, marked: &[usize]) -> FeatureSet {
    let mut permissions = vec![0u8; 50];
    for &i in marked {
        permissions[i] = 1;
    }
    FeatureSet { opcodes, indices, permissions }
}

#[test]
fn assemble_nothing() {
    assert!(assemble(&Vec::new()).is_none());
}

#[test]
fn assemble_one_row() {
    let batch = assemble(&vec![set(vec![1, 2, 3], vec![0, 2], &[0, 49])]).unwrap();
    assert_eq!(batch.rows, 1);
    assert_eq!(batch.opcode_width, 3);
    assert_eq!(batch.index_width, 2);
    assert_eq!(batch.opcodes, vec![1, 2, 3]);
    assert_eq!(batch.indices, vec![0, 2]);
    let mut expected = vec![0u8; 50];
    expected[0] = 1;
    expected[49] = 1;
    assert_eq!(batch.permissions, expected);
}

#[test]
fn assemble_pads_rows_of_mixed_length() {
    let sets = vec![
        set(vec![1, 2], vec![0, 1], &[1]),
        set(vec![3, 4, 5, 6, 7], vec![0, 0, 1, 2, 3, 4], &[2]),
        set(vec![], vec![], &[]),
        set(vec![8, 9, 10], vec![0, 2], &[3, 4]),
    ];
    let batch = assemble(&sets).unwrap();
    assert_eq!(batch.rows, 4);
    assert_eq!(batch.opcode_width, 5);
    assert_eq!(batch.index_width, 6);
    assert_eq!(
        batch.opcodes,
        vec![1, 2, 0, 0, 0, 3, 4, 5, 6, 7, 0, 0, 0, 0, 0, 8, 9, 10, 0, 0]
    );
    assert_eq!(
        batch.indices,
        vec![0, 1, 0, 0, 0, 0, 0, 0, 1, 2, 3, 4, 0, 0, 0, 0, 0, 0, 0, 2, 0, 0, 0, 0]
    );
    assert_eq!(batch.permissions.len(), 200);
    for (r, s) in sets.iter().enumerate() {
        assert_eq!(&batch.permissions[r * 50..(r + 1) * 50], &s.permissions[..]);
        let row = &batch.opcodes[r * 5..(r + 1) * 5];
        assert_eq!(&row[..s.opcodes.len()], &s.opcodes[..]);
        assert!(row[s.opcodes.len()..].iter().all(|&x| x == 0));
        let spans = &batch.indices[r * 6..(r + 1) * 6];
        assert_eq!(&spans[..s.indices.len()], &s.indices[..]);
        assert!(spans[s.indices.len()..].iter().all(|&x| x == 0));
    }
}

#[test]
fn assemble_rows_without_opcodes() {
    let batch = assemble(&vec![set(vec![], vec![], &[]), set(vec![], vec![], &[5])]).unwrap();
    assert_eq!(batch.rows, 2);
    assert_eq!(batch.opcode_width, 0);
    assert_eq!(batch.index_width, 0);
    assert!(batch.opcodes.is_empty());
    assert!(batch.indices.is_empty());
    assert_eq!(batch.permissions.len(), 100);
    assert_eq!(batch.permissions[55], 1);
}

#[test]
fn assemble_keeps_the_order_of_rows() {
    let sets = vec![set(vec![9], vec![0, 0], &[]), set(vec![1], vec![0, 0], &[])];
    let batch = assemble(&sets).unwrap();
    assert_eq!(batch.opcodes, vec![9, 1]);
}

#[test]
fn batch_shapes() {
    let sets = vec![
        set(vec![1, 2], vec![0, 1], &[]),
        set(vec![3, 4, 5], vec![0, 0, 1, 2], &[]),
        set(vec![6], vec![0, 0], &[]),
    ];
    let batch = assemble(&sets).unwrap();
    assert_eq!(batch.opcode_shape(), [3, 3]);
    assert_eq!(batch.index_shape(), [3, 2, 2]);
    assert_eq!(batch.permission_shape(), [3, 50]);
    assert_eq!(batch.opcodes.len(), 9);
    assert_eq!(batch.indices.len(), 12);
    assert_eq!(batch.permissions.len(), 150);
}
