//! A typed hypergraph for workforce maintenance scheduling.
//!
//! Technicians, work orders, activities, skills, calendar periods and days
//! are nodes; availability, containment, precedence, skill requirements,
//! exclusions and concrete assignments are variable-arity hyperedges.
//! The graph is append-only: construction operations validate against
//! already-built state before adding structure, and every edge is routed
//! through a single incidence-preserving primitive.

pub mod calendar;
pub mod period;
pub mod technician;
pub mod work_order;
pub mod schedule_graph;
pub mod construction;
pub mod assignment;
pub mod laws;
