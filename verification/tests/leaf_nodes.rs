use pagestore::node::{
    leaf_node_cell, leaf_node_key, leaf_node_num_cells, leaf_node_value, NodeType,
    LEAF_NODE_CELL_SIZE, LEAF_NODE_HEADER_SIZE, LEAF_NODE_MAX_CELLS,
};

#[test]
fn layout_constants_are_consistent() {
    assert_eq!(LEAF_NODE_HEADER_SIZE, 1 + 1 + 4 + 4);
    assert_eq!(LEAF_NODE_CELL_SIZE, 4 + 292);
    assert_eq!(LEAF_NODE_MAX_CELLS, (4096 - 10) / 296);
    assert_ne!(NodeType::NodeInternal, NodeType::NodeLeaf);
}

#[test]
fn num_cells_is_little_endian() {
    let mut node = vec![0u8; 4096];
    node[6] = 1;
    assert_eq!(leaf_node_num_cells(&node), 1);
    node[7] = 2;
    assert_eq!(leaf_node_num_cells(&node), 513);
    node[9] = 1;
    assert_eq!(leaf_node_num_cells(&node), 16_777_729);
}

#[test]
fn key_is_read_from_the_cells_first_bytes() {
    let mut node = vec![0u8; 4096];
    let at = 10 + 2 * 296;
    node[at] = 0x78;
    node[at + 1] = 0x56;
    node[at + 2] = 0x34;
    node[at + 3] = 0x12;
    assert_eq!(leaf_node_key(&node, 2), 0x1234_5678);
    assert_eq!(leaf_node_key(&node, 1), 0);
}

#[test]
fn value_is_the_cell_after_its_key() {
    let mut node = vec![0u8; 4096];
    let at = 10 + 12 * 296;
    for i in 0..296 {
        node[at + i] = (i % 251) as u8;
    }
    let value = leaf_node_value(&node, 12);
    assert_eq!(value.len(), 292);
    assert_eq!(value[0], 4);
    assert_eq!(value[291], (295 % 251) as u8);
}

#[test]
fn cell_copy_overwrites_one_cell_only() {
    let mut from = vec![0u8; 4096];
    for i in 0..296 {
        from[10 + 296 + i] = 0xAB;
    }
    let mut to = vec![1u8; 4096];
    leaf_node_cell(&from, 1, &mut to, 3);
    let at = 10 + 3 * 296;
    assert!(to[..at].iter().all(|b| *b == 1));
    assert!(to[at..at + 296].iter().all(|b| *b == 0xAB));
    assert!(to[at + 296..].iter().all(|b| *b == 1));
}
