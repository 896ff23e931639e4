//! A single-table record store: fixed-width rows laid out on 4096-byte pages,
//! a page cache over a flat backing image, and a forward cursor.

pub mod codec;
pub mod error;
pub mod node;
pub mod pager;
pub mod persistence;
pub mod row;
pub mod table;
