//! Builds a Cesium 3D Tiles level-of-detail hierarchy from LiDAR point
//! clouds: a subsampling quadtree over Morton-sorted points, bit-exact
//! `.pnts` payload packaging, and the tileset descriptor tree.

pub mod builder;
pub mod morton;
pub mod pnts;
pub mod quadtree;
pub mod spatial_extent;
pub mod tiles;

