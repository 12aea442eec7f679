//! A voxel world: chunked block storage, visible-face derivation and the
//! integer side of spatial queries, with machine-checked contracts.

pub mod block;
pub mod chunk;
pub mod command;
pub mod control;
pub mod coords;
pub mod cube;
pub mod direction;
pub mod edit;
pub mod generator;
pub mod iter;
pub mod lists;
pub mod loader;
pub mod pipeline;
pub mod query;
mod seqs;
pub mod stage;
pub mod store;
pub mod visibility;
pub mod world;

pub use block::{Block, Sprite};
pub use chunk::{BlocksChunk, ChunkState, ChunkView, Face, FaceEntry, FacesChunk};
pub use command::{AristideCmd, Cmd};
pub use control::Control;
pub use coords::{BlockCoords, BlockIndex, ChunkCoords, OutOfChunk, OutOfWorld};
pub use direction::Direction;
pub use generator::Generator;
pub use iter::{BlockIndexIter, ChunkRangeIter};
pub use loader::RenderedChunks;
pub use stage::ChunkStage;
pub use world::World;

