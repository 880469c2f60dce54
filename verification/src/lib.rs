//! Core logic of the steel game engine: the entity hierarchy, scene and prefab data,
//! asset bookkeeping and the integer side of rendering, with their contracts.

pub mod asset;
pub mod data;
pub mod ecs;
pub mod edit;
pub mod entityinfo;
pub mod hierarchy;
pub mod name;
pub mod prefab;
pub mod render;
pub mod scene;
pub mod schedule;
pub mod transform;
