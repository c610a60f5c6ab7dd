//! Verified core of the ANISE toolkit: aberration flags, orbital elements
//! and their units, event edges and arcs, arc intersections, kernel domains,
//! the kernel registries of the Almanac and the searches over them, the
//! MetaFile decisions, the bundled kernels and the flattening of reports.
pub mod aberration;
pub mod errors;
pub mod text;
pub mod event;
pub mod event_ops;
pub mod event_complete;
pub mod event_merge;
pub mod domain;
pub mod registry;
pub mod almanac;
pub mod datasets;
pub mod searches;
pub mod metaload;
pub mod elements;
pub mod embed;
pub mod report;
pub mod loading;
