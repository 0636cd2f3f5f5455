use tank_arena::mytypes::MyError;
use tank_arena::vertex_data::{interleave_vertex_data, VertexDataBlock};

#[test]
fn new_vertex_data_block_fails() {
    let data: &[f32] = &[];
    let block = VertexDataBlock::new("", 0, data);
    assert!(block.is_err());

    let block = VertexDataBlock::new("", 2, data);
    assert!(block.is_err());

    let data: &[f32] = &[1.0, 2.0, 3.0];
    let block = VertexDataBlock::new("", 2, data);
    assert!(block.is_err());
}

#[test]
fn vertex_data_block_works() {
    let data: &[f32] = &[1.0, 2.0, 3.0, 4.0];
    let block = VertexDataBlock::new("", 2, data).unwrap();
    assert_eq!(block.vertex_size(), 2);
    assert_eq!(block.data(), vec![1.0, 2.0, 3.0, 4.0]);
    assert_eq!(block.num_of_vertices(), 2);
}

#[test]
fn vertex_data_block_get_slice_works() {
    let data: &[f32] = &[1.0, 2.0, 3.0, 4.0];
    let block = VertexDataBlock::new("", 2, data).unwrap();
    let slice = block.get_slice(0).unwrap();
    assert_eq!(slice, &[1.0, 2.0]);
    let slice = block.get_slice(1).unwrap();
    assert_eq!(slice, &[2.0, 3.0]);
    let slice = block.get_slice(2).unwrap();
    assert_eq!(slice, &[3.0, 4.0]);
}

#[test]
fn vertex_data_block_get_slice_fails() {
    let data: &[f32] = &[1.0, 2.0, 3.0, 4.0];
    let block = VertexDataBlock::new("", 2, data).unwrap();
    let slice = block.get_slice(3);
    assert!(slice.is_err());
}

#[test]
fn interleave_vertex_data_works() {
    let data1: &[f32] = &[1.0, 2.0, 3.0, 4.0];
    let blocks = vec![VertexDataBlock::new("", 2, data1).unwrap()];
    let result = interleave_vertex_data(&blocks).unwrap();
    assert_eq!(result, vec![1.0, 2.0, 3.0, 4.0]);

    let data2: &[f32] = &[2.0, 3.0, 4.0, 5.0, 6.0, 7.0];
    let blocks = vec![
        VertexDataBlock::new("", 2, data1).unwrap(),
        VertexDataBlock::new("", 3, data2).unwrap(),
    ];
    let result = interleave_vertex_data(&blocks).unwrap();
    assert_eq!(
        result,
        vec![1.0, 2.0, 2.0, 3.0, 4.0, 3.0, 4.0, 5.0, 6.0, 7.0]
    );
}

#[test]
fn interleave_vertex_data_fails() {
    let data1: &[f32] = &[1.0, 2.0, 3.0, 4.0];
    let data2: &[f32] = &[2.0, 3.0, 4.0];
    let blocks = vec![
        VertexDataBlock::new("", 2, data1).unwrap(),
        VertexDataBlock::new("", 3, data2).unwrap(),
    ];
    let result = interleave_vertex_data(&blocks);
    assert!(result.is_err());
}

#[test]
fn vertex_data_errors_name_their_cause() {
    let none: &[u8] = &[];
    assert_eq!(VertexDataBlock::new("a", 0, none).unwrap_err(), MyError::ZeroVertexSize);
    assert_eq!(VertexDataBlock::new("a", 0, &[1u8, 2]).unwrap_err(), MyError::ZeroVertexSize);
    assert_eq!(VertexDataBlock::new("a", 2, none).unwrap_err(), MyError::InvalidDataSize);
    assert_eq!(VertexDataBlock::new("a", 2, &[1u8, 2, 3]).unwrap_err(), MyError::InvalidDataSize);
    let block = VertexDataBlock::new("a", 2, &[1u8, 2, 3, 4]).unwrap();
    assert_eq!(block.get_slice(3).unwrap_err(), MyError::InvalidStart);
    assert_eq!(block.get_slice(usize::MAX).unwrap_err(), MyError::InvalidStart);
    let empty: Vec<VertexDataBlock<u8>> = Vec::new();
    assert_eq!(interleave_vertex_data(&empty).unwrap_err(), MyError::NoBlocks);
    let other = VertexDataBlock::new("b", 1, &[9u8]).unwrap();
    assert_eq!(
        interleave_vertex_data(&[block, other]).unwrap_err(),
        MyError::VertexCountMismatch
    );
}

#[test]
fn a_block_keeps_its_name_and_data() {
    let block = VertexDataBlock::new("position", 3, &[1i32, 2, 3, 4, 5, 6]).unwrap();
    assert_eq!(block.name(), "position");
    assert_eq!(block.vertex_size(), 3);
    assert_eq!(block.num_of_vertices(), 2);
    assert_eq!(block.data(), &[1, 2, 3, 4, 5, 6]);
}

#[test]
fn interleaving_puts_each_vertex_side_by_side() {
    let position = VertexDataBlock::new("position", 2, &[10u16, 11, 20, 21, 30, 31]).unwrap();
    let color = VertexDataBlock::new("color", 3, &[1u16, 2, 3, 4, 5, 6, 7, 8, 9]).unwrap();
    let flag = VertexDataBlock::new("flag", 1, &[100u16, 200, 300]).unwrap();
    let result = interleave_vertex_data(&[position, color, flag]).unwrap();
    assert_eq!(
        result,
        vec![10, 11, 1, 2, 3, 100, 20, 21, 4, 5, 6, 200, 30, 31, 7, 8, 9, 300]
    );
}
