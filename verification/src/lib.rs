//! A verified core for a scripted animation engine.
//!
//! A clip is a reusable, independently seekable unit of animated content:
//! either a script whose coroutine loops rebuild a scene tick by tick, or a
//! static decoded image.  The library covers the frame-advancement protocol
//! that drives a script forward one discrete tick at a time, the stable
//! ordering of the drawable elements a tick produces, the cache that maps
//! clip paths to shared clip instances, and the compositor that turns an
//! ordered element list into a plan of draw passes and, for axis-aligned
//! solid geometry, into raw pixels.  Device work (pipelines, samplers,
//! shader evaluation) is left to a backend and is represented only by the
//! data each pass carries.

pub mod clips;
pub mod compositor;
pub mod elements;
pub mod raster;
pub mod runtime;
pub mod sort;
pub mod worker;
