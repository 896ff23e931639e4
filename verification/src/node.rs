//! Byte layout of a leaf node: a header of node type, root flag, parent
//! pointer and cell count, then cells of a key and a serialized row each.

use crate::codec::{copy_range, le_u32, overlay, read_u32_le, write_range};
use vstd::prelude::*;

verus! {

/// Width of the node type tag.
pub const NODE_TYPE_SIZE: usize = 1;

/// Where the node type tag starts.
pub const NODE_TYPE_OFFSET: usize = 0;

/// Width of the root flag.
pub const IS_ROOT_SIZE: usize = 1;

/// Where the root flag starts.
pub const IS_ROOT_OFFSET: usize = 1;

/// Width of the parent pointer.
pub const PARENT_POINTER_SIZE: usize = 4;

/// Where the parent pointer starts.
pub const PARENT_POINTER_OFFSET: usize = 2;

/// Width of the header that every node has: type tag, root flag, parent pointer.
pub const COMMON_NODE_HEADER_SIZE: usize = 6;

/// Width of a leaf node's cell count.
pub const LEAF_NODE_NUM_CELLS_SIZE: usize = 4;

/// Where a leaf node's cell count starts.
pub const LEAF_NODE_NUM_CELLS_OFFSET: usize = 6;

/// Width of a leaf node's header: the common header and the cell count.
pub const LEAF_NODE_HEADER_SIZE: usize = 10;

/// Width of a cell's key.
pub const LEAF_NODE_KEY_SIZE: usize = 4;

/// Where the key starts in a cell.
pub const LEAF_NODE_KEY_OFFSET: usize = 0;

/// Width of a cell's value, a serialized row.
pub const LEAF_NODE_VALUE_SIZE: usize = 292;

/// Where the value starts in a cell.
pub const LEAF_NODE_VALUE_OFFSET: usize = 4;

/// Width of a cell: key and value.
pub const LEAF_NODE_CELL_SIZE: usize = 296;

/// Bytes of a page that are left for cells.
pub const LEAF_NODE_SPACE_FOR_CELLS: usize = 4086;

/// Number of cells that fit a leaf node.
pub const LEAF_NODE_MAX_CELLS: usize = 13;

/// The kinds of node.
#[derive(Clone, Copy, Debug, PartialEq, Eq)]
pub enum NodeType {
    NodeInternal,
    NodeLeaf,
}

/// Where cell `cell_num` starts in a leaf node.
pub open spec fn cell_offset(cell_num: int) -> int {
    10 + cell_num * 296
}

/// Whether a node of `len` bytes holds cell `cell_num` whole.
pub open spec fn holds_cell(len: int, cell_num: int) -> bool {
    0 <= cell_num && cell_offset(cell_num) + 296 <= len
}

/// The bytes of cell `cell_num`: its key, then its value.
pub open spec fn cell_bytes(node: Seq<u8>, cell_num: int) -> Seq<u8> {
    node.subrange(cell_offset(cell_num), cell_offset(cell_num) + 296)
}

/// The bytes of the value of cell `cell_num`.
pub open spec fn value_bytes(node: Seq<u8>, cell_num: int) -> Seq<u8> {
    node.subrange(cell_offset(cell_num) + 4, cell_offset(cell_num) + 296)
}

/// The bytes of the key of cell `cell_num`.
pub open spec fn key_bytes(node: Seq<u8>, cell_num: int) -> Seq<u8> {
    node.subrange(cell_offset(cell_num), cell_offset(cell_num) + 4)
}

/// The cell count in the header of a leaf node, stored least significant
/// byte first.
pub fn leaf_node_num_cells(node: &Vec<u8>) -> (count: u32)
    requires
        node@.len() >= 10,
    ensures
        count == le_u32(node@.subrange(6, 10)),
{
    let bytes = copy_range(
        node,
        LEAF_NODE_NUM_CELLS_OFFSET,
        LEAF_NODE_NUM_CELLS_OFFSET + LEAF_NODE_NUM_CELLS_SIZE,
    );
    read_u32_le(bytes.as_slice())
}

/// Copies cell `from_cell_num` of `node_from` over cell `to_cell_num` of
/// `node_to`, and leaves the rest of `node_to` as it was.
pub fn leaf_node_cell(
    node_from: &Vec<u8>,
    from_cell_num: usize,
    node_to: &mut Vec<u8>,
    to_cell_num: usize,
)
    requires
        holds_cell(node_from.len() as int, from_cell_num as int),
        holds_cell(old(node_to).len() as int, to_cell_num as int),
    ensures
        final(node_to)@ == overlay(
            old(node_to)@,
            cell_offset(to_cell_num as int),
            cell_bytes(node_from@, from_cell_num as int),
        ),
{
    let from_offset: usize = LEAF_NODE_HEADER_SIZE + (from_cell_num * LEAF_NODE_CELL_SIZE);
    let to_offset: usize = LEAF_NODE_HEADER_SIZE + (to_cell_num * LEAF_NODE_CELL_SIZE);
    let cell = copy_range(node_from, from_offset, from_offset + LEAF_NODE_CELL_SIZE);
    write_range(node_to, to_offset, &cell);
}

/// The value of cell `cell_num`: a serialized row.
pub fn leaf_node_value(node: &Vec<u8>, cell_num: usize) -> (bytes: Vec<u8>)
    requires
        holds_cell(node.len() as int, cell_num as int),
    ensures
        bytes@ == value_bytes(node@, cell_num as int),
{
    let offset: usize = LEAF_NODE_HEADER_SIZE + (cell_num * LEAF_NODE_CELL_SIZE)
        + LEAF_NODE_KEY_SIZE;
    copy_range(node, offset, offset + LEAF_NODE_VALUE_SIZE)
}

/// The key of cell `cell_num`, stored least significant byte first.
pub fn leaf_node_key(node: &Vec<u8>, cell_num: u32) -> (key: u32)
    requires
        holds_cell(node.len() as int, cell_num as int),
    ensures
        key == le_u32(key_bytes(node@, cell_num as int)),
{
    let offset: usize = LEAF_NODE_HEADER_SIZE + LEAF_NODE_CELL_SIZE * (cell_num as usize);
    let bytes = copy_range(node, offset, offset + LEAF_NODE_KEY_SIZE);
    read_u32_le(bytes.as_slice())
}

} // verus!
