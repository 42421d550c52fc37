//! The object model of an installation: components, groups, intersections.
pub mod actuator;
pub mod component;
pub mod deck;
pub mod gate;
pub mod group;
pub mod intersection;
pub mod intersection_builder;
pub mod light;
pub mod sensor;
